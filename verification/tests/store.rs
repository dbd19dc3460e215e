use record_keeper::Date;
use record_keeper::RecordStore;
use record_keeper::StoreError;

fn d(day: u8, month: u8, year: u16) -> Date {
    Date { day, month, year }
}

fn indices(store: &RecordStore) -> Vec<u64> {
    store.list().iter().map(|r| r.index).collect()
}

#[test]
fn new_store_is_empty() {
    let store = RecordStore::new();
    assert!(store.is_empty());
    assert_eq!(store.len(), 0);
    assert!(store.list().is_empty());
}

#[test]
fn add_assigns_next_index() {
    let mut store = RecordStore::new();
    let idx1 = store.add("groceries".to_string(), 1250, d(3, 5, 2024));
    assert_eq!(idx1, 1);
    let idx2 = store.add("bus ticket".to_string(), 240, d(4, 5, 2024));
    assert_eq!(idx2, 2);
    let recs = store.list();
    assert_eq!(recs.len(), 2);
    assert_eq!(recs[0].index, 1);
    assert_eq!(recs[0].date, d(3, 5, 2024));
    assert_eq!(recs[0].description, "groceries");
    assert_eq!(recs[0].value, 1250);
    assert_eq!(recs[1].index, 2);
    assert_eq!(recs[1].date, d(4, 5, 2024));
    assert_eq!(recs[1].description, "bus ticket");
    assert_eq!(recs[1].value, 240);
}

#[test]
fn delete_shifts_later_indices_down() {
    let mut store = RecordStore::new();
    let day = d(1, 1, 2024);
    store.add("a".to_string(), 100, day);
    store.add("b".to_string(), 200, day);
    store.add("c".to_string(), 300, day);
    store.add("d".to_string(), 400, day);
    assert_eq!(store.delete(2), Ok(()));
    let recs = store.list();
    assert_eq!(recs.len(), 3);
    assert_eq!(recs[0].index, 1);
    assert_eq!(recs[0].description, "a");
    assert_eq!(recs[0].value, 100);
    assert_eq!(recs[1].index, 2);
    assert_eq!(recs[1].description, "c");
    assert_eq!(recs[1].value, 300);
    assert_eq!(recs[2].index, 3);
    assert_eq!(recs[2].description, "d");
    assert_eq!(recs[2].value, 400);
}

#[test]
fn delete_out_of_range_fails_and_leaves_store_unchanged() {
    let mut store = RecordStore::new();
    let day = d(2, 2, 2024);
    store.add("a".to_string(), 100, day);
    store.add("b".to_string(), 200, day);
    assert_eq!(store.delete(0), Err(StoreError::IndexOutOfRange));
    assert_eq!(store.delete(3), Err(StoreError::IndexOutOfRange));
    let recs = store.list();
    assert_eq!(recs.len(), 2);
    assert_eq!(recs[0].index, 1);
    assert_eq!(recs[0].description, "a");
    assert_eq!(recs[1].index, 2);
    assert_eq!(recs[1].description, "b");
}

#[test]
fn delete_on_empty_store_fails() {
    let mut store = RecordStore::new();
    assert_eq!(store.delete(1), Err(StoreError::IndexOutOfRange));
    assert!(store.is_empty());
}

#[test]
fn indices_stay_dense_after_every_operation() {
    let mut store = RecordStore::new();
    let day = d(9, 9, 2024);
    let dense = |store: &RecordStore| {
        let ix = indices(store);
        ix == (1..=store.len() as u64).collect::<Vec<u64>>()
    };
    for k in 0..6i64 {
        store.add(format!("entry {k}"), k * 10, day);
        assert!(dense(&store));
    }
    assert_eq!(store.delete(1), Ok(()));
    assert!(dense(&store));
    assert_eq!(store.delete(5), Ok(()));
    assert!(dense(&store));
    assert_eq!(store.delete(2), Ok(()));
    assert!(dense(&store));
    store.add("again".to_string(), 70, day);
    assert!(dense(&store));
    assert_eq!(store.delete(4), Ok(()));
    assert!(dense(&store));
    assert_eq!(store.delete(3), Ok(()));
    assert_eq!(store.delete(2), Ok(()));
    assert_eq!(store.delete(1), Ok(()));
    assert!(store.is_empty());
    assert!(dense(&store));
}

#[test]
fn delete_first_and_last() {
    let mut store = RecordStore::new();
    let day = d(8, 8, 2024);
    store.add("a".to_string(), 1, day);
    store.add("b".to_string(), 2, day);
    store.add("c".to_string(), 3, day);
    assert_eq!(store.delete(3), Ok(()));
    assert_eq!(indices(&store), vec![1, 2]);
    assert_eq!(store.delete(1), Ok(()));
    assert_eq!(indices(&store), vec![1]);
    assert_eq!(store.list()[0].description, "b");
}
