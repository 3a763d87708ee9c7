use goose_ifc::table::Table;
use goose_ifc::Label;

#[test]
fn a_table_keeps_one_value_for_each_key() {
    let mut table: Table<String, Label> = Table::new();
    let first = Label::readers("fixture", &["alice"]);
    let second = Label::readers("fixture", &["bob"]);
    table.insert("a".into(), first.clone());
    table.insert("b".into(), first.clone());
    table.insert("a".into(), second.clone());
    assert_eq!(table.len(), 2);
    assert_eq!(table.get(&"a".into()), Some(&second));
    assert_eq!(table.get(&"b".into()), Some(&first));
    assert!(!table.contains_key(&"c".into()));
    *table.get_mut(&"b".into()).unwrap() = Label::Unknown;
    assert_eq!(table.get(&"b".into()), Some(&Label::Unknown));
    table.remove(&"a".into());
    table.remove(&"c".into());
    assert_eq!(table.len(), 1);
    assert_eq!(table.get(&"a".into()), None);
}

#[test]
fn keys_of_two_parts_are_told_apart_by_both() {
    let mut table: Table<(String, String), Label> = Table::new();
    let label = Label::readers("fixture", &["alice"]);
    table.insert(("a".into(), "b".into()), label.clone());
    assert!(table.contains_key(&("a".into(), "b".into())));
    assert!(!table.contains_key(&("b".into(), "a".into())));
    assert!(!table.contains_key(&("a".into(), "c".into())));
}
