use qkaledioscope::ast::Identifier;
use qkaledioscope::table::Table;

fn name(text: &str) -> Identifier {
    Identifier(text.to_string())
}

#[test]
fn an_empty_table_binds_nothing() {
    let table: Table<u32> = Table::new();
    assert_eq!(table.get(&name("a")), None);
    assert!(!table.contains(&name("a")));
}

#[test]
fn a_name_is_bound_to_its_last_value() {
    let mut table = Table::new();
    table.insert(name("a"), 1);
    table.insert(name("b"), 2);
    table.insert(name("a"), 3);
    assert_eq!(table.get(&name("a")), Some(&3));
    assert_eq!(table.get(&name("b")), Some(&2));
    assert_eq!(table.get(&name("c")), None);
    assert!(table.contains(&name("b")));
    table.insert(name("b"), 4);
    assert_eq!(table.get(&name("a")), Some(&3));
    assert_eq!(table.get(&name("b")), Some(&4));
}

#[test]
fn names_are_compared_by_their_characters() {
    let mut table = Table::new();
    table.insert(name("ab"), 1);
    assert_eq!(table.get(&Identifier(format!("{}{}", "a", "b"))), Some(&1));
    assert_eq!(table.get(&name("a")), None);
    assert_eq!(table.get(&name("abc")), None);
    assert!(name("ab").same_as(&name("ab")));
    assert!(!name("ab").same_as(&name("aB")));
    assert_eq!(name("ab").clone(), name("ab"));
}
