use acheron::str_map::StrMap;

#[test]
fn insert_get_remove() {
    let mut m: StrMap<u64> = StrMap::new();
    assert!(m.is_empty());
    m.insert("a".to_string(), 1);
    m.insert("b".to_string(), 2);
    m.insert("a".to_string(), 3);
    assert_eq!(m.len(), 2);
    assert_eq!(m.get("a"), Some(&3));
    assert_eq!(m.get("b"), Some(&2));
    assert_eq!(m.get("c"), None);
    assert_eq!(m.remove("a"), Some(3));
    assert_eq!(m.remove("a"), None);
    assert_eq!(m.len(), 1);
    assert!(m.contains_key("b"));
    let d: StrMap<u64> = StrMap::default();
    assert_eq!(d.len(), 0);
}
