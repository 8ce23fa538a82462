use salmon_watch::table::Table;

#[test]
fn entries_are_kept_in_order_of_their_keys() {
    let mut table = Table::new();
    for (key, value) in [("b", 2), ("c", 3), ("a", 1), ("b", 4)] {
        table.insert(key.to_owned(), value);
    }
    assert_eq!(table.len(), 3);
    assert_eq!((table.key_at(0), table.key_at(1), table.key_at(2)), ("a", "b", "c"));
    assert_eq!(*table.value_at(1), 4);
    assert_eq!(table.get("b"), Some(&4));
    assert_eq!(table.get("d"), None);
    assert!(table.contains_key("a"));
}

#[test]
fn entries_can_be_removed() {
    let mut table: Table<i128> = Table::new();
    table.insert("a".into(), 1);
    let copy = table.duplicate();
    assert!(copy.same(&table));
    assert!(table.remove("a"));
    assert!(!table.remove("a"));
    assert_eq!(table.len(), 0);
    assert!(!copy.same(&table));
}
