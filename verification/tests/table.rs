use qsim::table::Table;

#[test]
fn a_new_table_is_empty() {
    let t: Table<u32> = Table::new();
    assert_eq!(t.len(), 0);
    assert!(!t.contains_key("A"));
    assert_eq!(t.get("A"), None);
    assert_eq!(t.find(&"A".to_string()), None);
}

#[test]
fn a_name_is_bound_once() {
    let mut t: Table<u32> = Table::new();
    t.insert("A".to_string(), 1);
    t.insert("B".to_string(), 2);
    t.insert("A".to_string(), 3);
    assert_eq!(t.len(), 2);
    assert_eq!(t.get("A"), Some(&3));
    assert_eq!(t.get("B"), Some(&2));
    assert_eq!(t.get("C"), None);
    assert!(t.contains_key("B"));
    assert_eq!(t.find(&"B".to_string()), Some(1));
    assert_eq!(
        t.entries,
        vec![("A".to_string(), 3), ("B".to_string(), 2)]
    );
}

#[test]
fn names_are_told_apart_by_every_character() {
    let mut t: Table<u32> = Table::new();
    t.insert("RES1".to_string(), 1);
    t.insert("RES".to_string(), 2);
    t.insert("res".to_string(), 3);
    t.insert("".to_string(), 4);
    assert_eq!(t.len(), 4);
    assert_eq!(t.get("RES"), Some(&2));
    assert_eq!(t.get(""), Some(&4));
    assert_eq!(t.get("RES "), None);
}
