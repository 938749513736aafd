use electrs::store::{Row, Store, StoreOptions};

fn opts() -> StoreOptions {
    StoreOptions { auto_compact: true }
}

#[test]
fn get_on_empty_store_is_none() {
    let store = Store::open(opts());
    assert!(store.get(&vec![1u8, 2, 3]).is_none());
}

#[test]
fn put_then_get_returns_value() {
    let mut store = Store::open(opts());
    store.put(vec![1u8, 2], vec![9u8]);
    assert_eq!(store.get(&vec![1u8, 2]).unwrap(), vec![9u8]);
    assert!(store.get(&vec![1u8, 3]).is_none());
}

#[test]
fn put_replaces_existing_value() {
    let mut store = Store::open(opts());
    store.put(vec![5u8], vec![1u8]);
    store.put(vec![5u8], vec![2u8]);
    assert_eq!(store.get(&vec![5u8]).unwrap(), vec![2u8]);
}

#[test]
fn delete_removes_only_its_key() {
    let mut store = Store::open(opts());
    store.put(vec![1u8], vec![1u8]);
    store.put(vec![2u8], vec![2u8]);
    store.delete(&vec![1u8]);
    assert!(store.get(&vec![1u8]).is_none());
    assert_eq!(store.get(&vec![2u8]).unwrap(), vec![2u8]);
}

#[test]
fn persist_applies_batch_in_order() {
    let mut store = Store::open(opts());
    let batch = vec![
        Row { key: vec![7u8], value: vec![1u8] },
        Row { key: vec![8u8], value: vec![2u8] },
        Row { key: vec![7u8], value: vec![3u8] },
    ];
    store.persist(batch);
    assert_eq!(store.get(&vec![7u8]).unwrap(), vec![3u8]);
    assert_eq!(store.get(&vec![8u8]).unwrap(), vec![2u8]);
}

#[test]
fn scan_returns_exactly_the_prefixed_rows_in_key_order() {
    let mut store = Store::open(opts());
    store.put(vec![b'B', 1], vec![10u8]);
    store.put(vec![b'A', 2], vec![20u8]);
    store.put(vec![b'A', 1], vec![30u8]);
    store.put(vec![b'C'], vec![40u8]);
    let rows = store.scan(&vec![b'A']);
    assert_eq!(rows.len(), 2);
    assert_eq!(rows[0].key, vec![b'A', 1]);
    assert_eq!(rows[0].value, vec![30u8]);
    assert_eq!(rows[1].key, vec![b'A', 2]);
    assert_eq!(rows[1].value, vec![20u8]);
}

#[test]
fn scan_with_empty_prefix_lists_all_rows_sorted() {
    let mut store = Store::open(opts());
    store.put(vec![3u8], vec![3u8]);
    store.put(vec![1u8], vec![1u8]);
    store.put(vec![2u8], vec![2u8]);
    let rows = store.scan(&vec![]);
    let keys: Vec<Vec<u8>> = rows.iter().map(|r| r.key.clone()).collect();
    assert_eq!(keys, vec![vec![1u8], vec![2u8], vec![3u8]]);
}
