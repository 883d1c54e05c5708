use minirust::scope::ScopeMap;

#[test]
fn inner_scope_hides_and_forgets() {
    let mut m: ScopeMap<i32> = ScopeMap::new();
    assert_eq!(m.get("a"), None);
    m.new_stack();
    m.insert("a".to_owned(), 1);
    assert_eq!(m.get("a"), Some(&1));
    m.new_stack();
    assert_eq!(m.get("a"), Some(&1));
    m.insert("a".to_owned(), 2);
    m.insert("b".to_owned(), 3);
    assert_eq!(m.get("a"), Some(&2));
    assert_eq!(m.get("b"), Some(&3));
    m.drop_stack();
    assert_eq!(m.get("a"), Some(&1));
    assert_eq!(m.get("b"), None);
}

#[test]
fn insert_replaces_in_the_same_scope() {
    let mut m: ScopeMap<&str> = ScopeMap::new();
    m.new_stack();
    m.insert("x".to_owned(), "first");
    m.insert("x".to_owned(), "second");
    assert_eq!(m.get("x"), Some(&"second"));
    m.drop_stack();
    assert_eq!(m.get("x"), None);
}
