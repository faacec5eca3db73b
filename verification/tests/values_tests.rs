use config_tools::values::ValueMap;

#[test]
fn value_map_insert_then_get() {
    let mut map = ValueMap::new();
    assert!(map.is_empty());
    assert_eq!(map.insert("port".to_string(), "8080".to_string()), None);
    assert_eq!(map.insert("host".to_string(), "localhost".to_string()), None);
    assert_eq!(map.insert("port".to_string(), "9090".to_string()), Some("8080".to_string()));
    assert_eq!(map.len(), 2);
    assert_eq!(map.get("port"), Some(&"9090".to_string()));
    assert_eq!(map.get("host"), Some(&"localhost".to_string()));
    assert_eq!(map.get("missing"), None);
    assert_eq!(map.nth(0), Some((&"host".to_string(), &"localhost".to_string())));
    assert_eq!(map.nth(1), Some((&"port".to_string(), &"9090".to_string())));
    assert_eq!(map.nth(2), None);
}
