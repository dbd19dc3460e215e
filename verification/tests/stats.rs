use record_keeper::Date;
use record_keeper::RecordStore;
use record_keeper::StoreError;
use record_keeper::compute_all;
use record_keeper::compute_for_date;

fn d(day: u8, month: u8, year: u16) -> Date {
    Date { day, month, year }
}

#[test]
fn aggregation_over_all_records() {
    let mut store = RecordStore::new();
    let day = d(1, 6, 2024);
    store.add("a".to_string(), 1000, day);
    store.add("b".to_string(), -500, day);
    store.add("c".to_string(), 2000, day);
    store.add("d".to_string(), 2000, day);
    let st = compute_all(&store).unwrap();
    assert_eq!(st.min, -500);
    assert_eq!(st.max, 2000);
    assert_eq!(st.total, 4500);
    assert_eq!(st.count, 4);
    assert_eq!(st.avg(), 1125);
    assert_eq!(st.total as f64 / st.count as f64 / 100.0, 11.25);
}

#[test]
fn aggregation_filtered_by_date() {
    let mut store = RecordStore::new();
    let d1 = d(1, 6, 2024);
    let d2 = d(2, 6, 2024);
    store.add("a".to_string(), 1000, d1);
    store.add("b".to_string(), 2000, d2);
    store.add("c".to_string(), 3000, d1);
    let st = compute_for_date(&store, d1).unwrap();
    assert_eq!(st.min, 1000);
    assert_eq!(st.max, 3000);
    assert_eq!(st.total, 4000);
    assert_eq!(st.count, 2);
    assert_eq!(st.avg(), 2000);
    let other = compute_for_date(&store, d2).unwrap();
    assert_eq!(other.min, 2000);
    assert_eq!(other.max, 2000);
    assert_eq!(other.total, 2000);
    assert_eq!(other.count, 1);
}

#[test]
fn empty_store_and_empty_filter_are_explicit_errors() {
    let mut store = RecordStore::new();
    assert_eq!(compute_all(&store), Err(StoreError::EmptyAggregationInput));
    assert_eq!(
        compute_for_date(&store, d(1, 1, 2024)),
        Err(StoreError::EmptyAggregationInput)
    );
    store.add("a".to_string(), 100, d(1, 1, 2024));
    assert_eq!(
        compute_for_date(&store, d(2, 1, 2024)),
        Err(StoreError::EmptyAggregationInput)
    );
    assert!(compute_all(&store).is_ok());
}

#[test]
fn single_record_statistics() {
    let mut store = RecordStore::new();
    store.add("only".to_string(), -750, d(5, 5, 2025));
    let st = compute_all(&store).unwrap();
    assert_eq!(st.min, -750);
    assert_eq!(st.max, -750);
    assert_eq!(st.total, -750);
    assert_eq!(st.count, 1);
    assert_eq!(st.avg(), -750);
}

#[test]
fn average_rounds_toward_zero() {
    let mut store = RecordStore::new();
    let day = d(7, 7, 2025);
    store.add("a".to_string(), -999, day);
    store.add("b".to_string(), 0, day);
    let st = compute_all(&store).unwrap();
    assert_eq!(st.total, -999);
    assert_eq!(st.count, 2);
    assert_eq!(st.avg(), -499);
    let mut pos = RecordStore::new();
    pos.add("a".to_string(), 999, day);
    pos.add("b".to_string(), 0, day);
    assert_eq!(pos.len(), 2);
    assert_eq!(compute_all(&pos).unwrap().avg(), 499);
}

#[test]
fn min_initialization_ignores_unmatched_first_row() {
    let mut store = RecordStore::new();
    let d1 = d(1, 3, 2025);
    let d2 = d(2, 3, 2025);
    store.add("huge first".to_string(), -100_000, d2);
    store.add("small".to_string(), 500, d1);
    store.add("large".to_string(), 700, d1);
    let st = compute_for_date(&store, d1).unwrap();
    assert_eq!(st.min, 500);
    assert_eq!(st.max, 700);
    assert_eq!(st.total, 1200);
    assert_eq!(st.count, 2);
}
