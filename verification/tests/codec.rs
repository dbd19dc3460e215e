use record_keeper::Date;
use record_keeper::RecordStore;
use record_keeper::StoreError;
use record_keeper::date_from_parts;
use record_keeper::date_to_string;
use record_keeper::money_to_string;
use record_keeper::month_file_name;
use record_keeper::parse_date;
use record_keeper::parse_money;
use record_keeper::parse_u64;
use record_keeper::today;
use record_keeper::u64_to_string;

fn d(day: u8, month: u8, year: u16) -> Date {
    Date { day, month, year }
}

#[test]
fn save_then_load_reproduces_the_store() {
    let mut store = RecordStore::new();
    store.add("plain".to_string(), 1234, d(3, 4, 2025));
    store.add("comma, \"quote\"".to_string(), -5, d(29, 12, 2025));
    store.add(String::new(), 0, d(1, 1, 1));
    store.add("caf\u{e9} au lait".to_string(), i64::MAX, d(31, 12, 9999));
    store.add("refund".to_string(), i64::MIN, d(15, 6, 2024));
    let rows = store.save();
    let loaded = RecordStore::load(&rows).unwrap();
    let before = store.list();
    let after = loaded.list();
    assert_eq!(before.len(), after.len());
    for (a, b) in before.iter().zip(after.iter()) {
        assert_eq!(a.index, b.index);
        assert_eq!(a.date, b.date);
        assert_eq!(a.description, b.description);
        assert_eq!(a.value, b.value);
    }
}

#[test]
fn save_writes_header_and_fields() {
    let mut store = RecordStore::new();
    store.add("tea".to_string(), 250, d(7, 3, 2026));
    let rows = store.save();
    assert_eq!(rows.len(), 2);
    assert_eq!(rows[0], vec!["Index", "Date", "Description", "Value"]);
    assert_eq!(rows[1], vec!["1", "07-03-2026", "tea", "2.50"]);
}

#[test]
fn load_of_no_rows_gives_the_empty_store() {
    let rows: Vec<Vec<String>> = Vec::new();
    let store = RecordStore::load(&rows).unwrap();
    assert!(store.is_empty());
}

#[test]
fn load_skips_any_header_row() {
    let rows = vec![
        vec!["anything".to_string()],
        vec![
            "1".to_string(),
            "02-03-2024".to_string(),
            "x".to_string(),
            "1.00".to_string(),
        ],
    ];
    let store = RecordStore::load(&rows).unwrap();
    assert_eq!(store.len(), 1);
    assert_eq!(store.list()[0].value, 100);
    assert_eq!(store.list()[0].date, d(2, 3, 2024));
}

fn record_row(index: &str, date: &str, desc: &str, value: &str) -> Vec<Vec<String>> {
    vec![
        vec![
            "Index".to_string(),
            "Date".to_string(),
            "Description".to_string(),
            "Value".to_string(),
        ],
        vec![
            index.to_string(),
            date.to_string(),
            desc.to_string(),
            value.to_string(),
        ],
    ]
}

#[test]
fn load_rejects_malformed_rows() {
    let bad = [
        record_row("1", "02-03-2024", "x", "abc"),
        record_row("1", "02-03-2024", "x", "1.5"),
        record_row("1", "02-03-2024", "x", "1.234"),
        record_row("1", "2-3-2024", "x", "1.00"),
        record_row("1", "32-01-2024", "x", "1.00"),
        record_row("1", "01-13-2024", "x", "1.00"),
        record_row("2", "02-03-2024", "x", "1.00"),
        record_row("0", "02-03-2024", "x", "1.00"),
        record_row("01", "02-03-2024", "x", "1.00"),
    ];
    for rows in bad {
        assert!(matches!(
            RecordStore::load(&rows),
            Err(StoreError::PersistenceError { row: 1 })
        ));
    }
}

#[test]
fn load_rejects_short_rows() {
    let rows = vec![
        vec!["h".to_string()],
        vec!["1".to_string(), "02-03-2024".to_string(), "x".to_string()],
    ];
    assert!(matches!(
        RecordStore::load(&rows),
        Err(StoreError::PersistenceError { row: 1 })
    ));
}

#[test]
fn load_error_names_the_first_corrupt_row() {
    let rows = vec![
        vec!["h".to_string()],
        vec![
            "1".to_string(),
            "02-03-2024".to_string(),
            "ok".to_string(),
            "1.00".to_string(),
        ],
        vec![
            "2".to_string(),
            "02-03-2024".to_string(),
            "bad".to_string(),
            "oops".to_string(),
        ],
    ];
    assert!(matches!(
        RecordStore::load(&rows),
        Err(StoreError::PersistenceError { row: 2 })
    ));
}

#[test]
fn date_from_parts_validates_ranges() {
    assert_eq!(date_from_parts(3, 4, 2025), Some(d(3, 4, 2025)));
    assert_eq!(date_from_parts(31, 12, 9999), Some(d(31, 12, 9999)));
    assert_eq!(date_from_parts(1, 1, 0), Some(d(1, 1, 0)));
    assert_eq!(date_from_parts(0, 4, 2025), None);
    assert_eq!(date_from_parts(32, 4, 2025), None);
    assert_eq!(date_from_parts(3, 0, 2025), None);
    assert_eq!(date_from_parts(3, 13, 2025), None);
    assert_eq!(date_from_parts(3, 4, -1), None);
    assert_eq!(date_from_parts(3, 4, 10000), None);
}

#[test]
fn decimal_printing_and_parsing() {
    assert_eq!(u64_to_string(0), "0");
    assert_eq!(u64_to_string(7), "7");
    assert_eq!(u64_to_string(12345), "12345");
    assert_eq!(u64_to_string(u64::MAX), "18446744073709551615");
    assert_eq!(parse_u64("0"), Some(0));
    assert_eq!(parse_u64("12345"), Some(12345));
    assert_eq!(parse_u64("18446744073709551615"), Some(u64::MAX));
    assert_eq!(parse_u64("18446744073709551616"), None);
    assert_eq!(parse_u64("99999999999999999999999999"), None);
    assert_eq!(parse_u64(""), None);
    assert_eq!(parse_u64("007"), None);
    assert_eq!(parse_u64("1 2"), None);
    assert_eq!(parse_u64("-1"), None);
}

#[test]
fn date_printing_and_parsing() {
    assert_eq!(date_to_string(&d(5, 3, 2026)), "05-03-2026");
    assert_eq!(date_to_string(&d(31, 12, 9999)), "31-12-9999");
    assert_eq!(date_to_string(&d(1, 1, 0)), "01-01-0000");
    assert_eq!(parse_date("05-03-2026"), Some(d(5, 3, 2026)));
    assert_eq!(parse_date("31-12-9999"), Some(d(31, 12, 9999)));
    assert_eq!(parse_date("00-01-2024"), None);
    assert_eq!(parse_date("32-01-2024"), None);
    assert_eq!(parse_date("01-00-2024"), None);
    assert_eq!(parse_date("01-13-2024"), None);
    assert_eq!(parse_date("1-1-2024"), None);
    assert_eq!(parse_date("05/03/2026"), None);
    assert_eq!(parse_date(""), None);
}

#[test]
fn money_printing_and_parsing() {
    assert_eq!(money_to_string(0), "0.00");
    assert_eq!(money_to_string(-5), "-0.05");
    assert_eq!(money_to_string(1234), "12.34");
    assert_eq!(money_to_string(-100), "-1.00");
    assert_eq!(money_to_string(i64::MAX), "92233720368547758.07");
    assert_eq!(money_to_string(i64::MIN), "-92233720368547758.08");
    assert_eq!(parse_money("12.34"), Some(1234));
    assert_eq!(parse_money("-0.05"), Some(-5));
    assert_eq!(parse_money("0.00"), Some(0));
    assert_eq!(parse_money("-0.00"), Some(0));
    assert_eq!(parse_money("92233720368547758.07"), Some(i64::MAX));
    assert_eq!(parse_money("92233720368547758.08"), None);
    assert_eq!(parse_money("-92233720368547758.08"), Some(i64::MIN));
    assert_eq!(parse_money("-92233720368547758.09"), None);
    assert_eq!(parse_money("12"), None);
    assert_eq!(parse_money("12.3"), None);
    assert_eq!(parse_money("12.345"), None);
    assert_eq!(parse_money(".50"), None);
    assert_eq!(parse_money("01.00"), None);
    assert_eq!(parse_money("-"), None);
    assert_eq!(parse_money(""), None);
    assert_eq!(parse_money("1x.00"), None);
}

#[test]
fn month_file_name_is_month_dash_year() {
    assert_eq!(month_file_name(2, 2026), "02-2026");
    assert_eq!(month_file_name(12, 31), "12-0031");
}

#[test]
fn today_is_a_valid_date() {
    let now = today().unwrap();
    assert!((1..=31).contains(&now.day));
    assert!((1..=12).contains(&now.month));
    assert!(now.year >= 2024);
    assert_eq!(parse_date(&date_to_string(&now)), Some(now));
}
