use holyrig::name_map::NameMap;

#[test]
fn read_after_write() {
    let mut m: NameMap<u32> = NameMap::new();
    m.insert("b".to_string(), 2);
    m.insert("a".to_string(), 1);
    m.insert("c".to_string(), 3);
    m.insert("b".to_string(), 20);
    assert_eq!(m.get("b"), Some(&20));
    assert_eq!(m.get("a"), Some(&1));
    assert_eq!(m.get("c"), Some(&3));
    assert_eq!(m.get("d"), None);
    assert_eq!(m.len(), 3);
    let names: Vec<&str> = m.entries.iter().map(|e| e.0.as_str()).collect();
    assert_eq!(names, vec!["a", "b", "c"]);
    assert!(m.contains_key("a") && !m.contains_key("z"));
}
