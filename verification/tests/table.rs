use miniredis::table::Table;

#[test]
fn a_table_holds_one_value_for_each_key() {
    let mut t: Table<u32> = Table::new();
    t.insert("a".to_string(), 1);
    t.insert("b".to_string(), 2);
    t.insert("a".to_string(), 3);
    assert_eq!(t.len(), 2);
    assert_eq!(t.get("a"), Some(&3));
    assert_eq!(t.get("b"), Some(&2));
    assert_eq!(t.get("c"), None);
}

#[test]
fn values_are_taken_out_of_a_table() {
    let mut t: Table<u32> = Table::new();
    for (i, key) in ["a", "b", "c", "d"].iter().enumerate() {
        t.insert(key.to_string(), i as u32);
    }
    assert_eq!(t.take("b"), Some(1));
    assert_eq!(t.take("b"), None);
    assert_eq!(t.take("d"), Some(3));
    assert_eq!((t.get("a"), t.get("c"), t.get("d")), (Some(&0), Some(&2), None));
    t.insert("e".to_string(), 9);
    assert_eq!((t.len(), t.get("e"), t.get("c")), (3, Some(&9), Some(&2)));
    t.clear();
    assert_eq!((t.len(), t.get("a")), (0, None));
}

#[test]
fn a_table_is_walked() {
    let mut t: Table<u32> = Table::new();
    t.insert("a".to_string(), 1);
    t.insert("b".to_string(), 2);
    let mut seen: Vec<(String, u32)> = (0..t.len()).map(|i| (t.at(i).0.clone(), *t.at(i).1)).collect();
    seen.sort();
    assert_eq!(seen, vec![("a".to_string(), 1), ("b".to_string(), 2)]);
}
