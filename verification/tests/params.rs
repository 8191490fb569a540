use m_server::params::ParamMap;

#[test]
fn empty_map_has_nothing() {
    let m = ParamMap::new();
    assert_eq!(m.len(), 0);
    assert!(m.get("a").is_none());
    assert!(!m.contains_key("a"));
}

#[test]
fn insert_then_get() {
    let mut m = ParamMap::new();
    m.insert("a".to_string(), "1".to_string());
    m.insert("b".to_string(), "2".to_string());
    assert_eq!(m.len(), 2);
    assert_eq!(m.get("a").unwrap().as_str(), "1");
    assert_eq!(m.get("b").unwrap().as_str(), "2");
    assert!(m.contains_key("a"));
    assert!(m.get("c").is_none());
}

#[test]
fn insert_overwrites_existing_key() {
    let mut m = ParamMap::new();
    m.insert("k".to_string(), "old".to_string());
    m.insert("k".to_string(), "new".to_string());
    assert_eq!(m.len(), 1);
    assert_eq!(m.get("k").unwrap().as_str(), "new");
}
