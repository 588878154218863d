use contelemetry::table::{same_bytes, MapTable, RawEntry};

#[test]
fn new_table_is_empty() {
    let table = MapTable::new();
    assert_eq!(table.len(), 0);
    assert_eq!(table.keys(), Vec::<Vec<u8>>::new());
    assert_eq!(table.lookup(&[1]), None);
    assert!(table.entries().is_empty());
}

#[test]
fn update_stores_and_overwrites() {
    let mut table = MapTable::new();
    table.update(&[1, 0], &[10]);
    table.update(&[2, 0], &[20, 21]);
    table.update(&[], &[]);
    assert_eq!(table.len(), 3);
    assert_eq!(table.lookup(&[1, 0]), Some(vec![10]));
    assert_eq!(table.lookup(&[2, 0]), Some(vec![20, 21]));
    assert_eq!(table.lookup(&[]), Some(vec![]));
    assert_eq!(table.lookup(&[1]), None);
    assert_eq!(table.lookup(&[1, 0, 0]), None);
    table.update(&[1, 0], &[11, 12, 13]);
    assert_eq!(table.len(), 3);
    assert_eq!(table.lookup(&[1, 0]), Some(vec![11, 12, 13]));
    assert_eq!(table.lookup(&[2, 0]), Some(vec![20, 21]));
}

#[test]
fn keys_are_enumerated_once_each() {
    let mut table = MapTable::new();
    table.update(&[3], &[0]);
    table.update(&[1], &[0]);
    table.update(&[3], &[9]);
    table.update(&[2], &[0]);
    assert_eq!(table.keys(), vec![vec![3], vec![1], vec![2]]);
    assert_eq!(
        table.entries(),
        &vec![
            RawEntry { key: vec![3], value: vec![9] },
            RawEntry { key: vec![1], value: vec![0] },
            RawEntry { key: vec![2], value: vec![0] },
        ]
    );
    for key in table.keys() {
        assert!(table.lookup(&key).is_some());
    }
}

#[test]
fn bytes_are_compared_whole() {
    assert!(same_bytes(&[], &[]));
    assert!(same_bytes(&[1, 2, 3], &[1, 2, 3]));
    assert!(!same_bytes(&[1, 2, 3], &[1, 2]));
    assert!(!same_bytes(&[1, 2], &[1, 2, 3]));
    assert!(!same_bytes(&[1, 2, 3], &[1, 2, 4]));
    assert!(!same_bytes(&[0], &[]));
}
