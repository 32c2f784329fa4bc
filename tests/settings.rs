use nia::settings::Settings;

#[test]
fn upsert_inserts_then_replaces() {
    let mut s = Settings::new();
    assert_eq!(s.get(&"theme".to_string()), None);
    s.upsert("theme".to_string(), "dark".to_string());
    s.upsert("model".to_string(), "realtime".to_string());
    assert_eq!(s.get(&"theme".to_string()), Some("dark".to_string()));
    s.upsert("theme".to_string(), "light".to_string());
    assert_eq!(s.get(&"theme".to_string()), Some("light".to_string()));
    assert_eq!(s.get(&"model".to_string()), Some("realtime".to_string()));
    assert_eq!(s.get(&"Theme".to_string()), None);
}

#[test]
fn empty_key_and_value_are_stored() {
    let mut s = Settings::new();
    s.upsert(String::new(), String::new());
    assert_eq!(s.get(&String::new()), Some(String::new()));
}
