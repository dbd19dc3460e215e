//! A small personal expense ledger: an in-memory record store with dense
//! 1-based indices, aggregate statistics (minimum, maximum, total, average)
//! over all records or over the records of one date, and a plain-text row
//! codec for loading and saving the store.

pub mod codec;
pub mod date;
pub mod digits;
pub mod money;
pub mod stats;
pub mod store;

pub use date::Date;
pub use date::date_from_parts;
pub use date::date_to_string;
pub use date::month_file_name;
pub use date::parse_date;
pub use date::today;
pub use digits::parse_u64;
pub use digits::u64_to_string;
pub use money::money_to_string;
pub use money::parse_money;
pub use stats::Stats;
pub use stats::compute_all;
pub use stats::compute_for_date;
pub use store::ExpenseRecord;
pub use store::RecordStore;
pub use store::StoreError;

pub use codec::lemma_save_load_round_trip;
pub use date::lemma_date_round_trip;
pub use money::lemma_money_round_trip;
pub use stats::lemma_max_of_is_greatest;
pub use stats::lemma_min_of_is_least;
pub use store::lemma_index_density;
