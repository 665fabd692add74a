use pulse_gateway::credentials::{
    delete_value, entry, fallback_path, get_value, has_value, lookup_fallback, save_credential,
    store_in_fallback, store_value, value_from, FALLBACK_FILE, SERVICE,
};
use pulse_gateway::string_map::StringMap;

#[test]
fn service_name() {
    assert_eq!(SERVICE, "dev.andcake.pulsegw");
}

#[test]
fn entry_creation_succeeds() {
    // Should not panic for a valid key
    let result = entry("test-key");
    assert!(result.is_ok());
}

#[test]
fn fallback_path_ends_with_json() {
    let path = fallback_path(None);
    assert!(path.ends_with("env_secrets.json"));
}

#[test]
fn fallback_path_joins_like_path_join() {
    assert_eq!(fallback_path(None), "./env_secrets.json");
    assert_eq!(fallback_path(Some("/home/u/cfg")), "/home/u/cfg/env_secrets.json");
    assert_eq!(fallback_path(Some("/home/u/cfg/")), "/home/u/cfg/env_secrets.json");
    assert_eq!(fallback_path(Some("")), FALLBACK_FILE);
    let joined = std::path::Path::new("/a/b").join("env_secrets.json");
    assert_eq!(fallback_path(Some("/a/b")), joined.to_string_lossy());
}

#[test]
fn lookup_fallback_found_and_missing() {
    let mut m = StringMap::new();
    m.insert("KEY".to_string(), "val".to_string());
    assert_eq!(lookup_fallback(&m, "KEY"), Ok("val".to_string()));
    assert_eq!(
        lookup_fallback(&m, "OTHER"),
        Err("No value stored for 'OTHER'".to_string())
    );
}

#[test]
fn fallback_values_are_found() {
    let mut m = StringMap::new();
    m.insert("ONLY_IN_FILE".to_string(), "v".to_string());
    assert!(get_value("ONLY_IN_FILE", &m).is_ok());
    assert!(has_value("ONLY_IN_FILE", &m));
}

#[test]
fn store_then_read_back() {
    let mut m = StringMap::new();
    let wrote = store_value("STORE_KEY", "secret", &mut m).unwrap();
    if wrote {
        assert_eq!(m.get("STORE_KEY").map(|s| s.as_str()), Some("secret"));
    } else {
        assert!(m.get("STORE_KEY").is_none());
    }
}

#[test]
fn delete_removes_from_fallback() {
    let mut m = StringMap::new();
    m.insert("GONE".to_string(), "x".to_string());
    assert!(delete_value("GONE", &mut m));
    assert!(m.get("GONE").is_none());
    assert!(!delete_value("GONE", &mut m));
}

#[test]
fn string_map_replaces_and_removes() {
    let mut m = StringMap::new();
    m.insert("A".to_string(), "1".to_string());
    m.insert("B".to_string(), "2".to_string());
    m.insert("A".to_string(), "3".to_string());
    assert_eq!(m.get("A").map(|s| s.as_str()), Some("3"));
    assert_eq!(m.pairs().len(), 2);
    assert!(m.remove("A"));
    assert!(m.get("A").is_none());
    assert_eq!(m.get("B").map(|s| s.as_str()), Some("2"));
    let c = m.copy();
    assert_eq!(c.get("B").map(|s| s.as_str()), Some("2"));
}

#[test]
fn value_from_prefers_keyring_then_fallback() {
    let mut m = StringMap::new();
    m.insert("K".to_string(), "file".to_string());
    assert_eq!(value_from(Some("ring".to_string()), &m, "K"), Ok("ring".to_string()));
    assert_eq!(value_from(None, &m, "K"), Ok("file".to_string()));
    assert_eq!(value_from(None, &m, "Z"), Err("No value stored for 'Z'".to_string()));
}

#[test]
fn store_in_fallback_only_when_keyring_failed() {
    let mut m = StringMap::new();
    assert!(!store_in_fallback(true, "K", "v", &mut m));
    assert!(m.get("K").is_none());
    assert!(store_in_fallback(false, "K", "v", &mut m));
    assert_eq!(m.get("K").map(|s| s.as_str()), Some("v"));
}

#[test]
fn saving_an_empty_value_removes_the_credential() {
    let mut m = StringMap::new();
    m.insert("PULSE_TEST_EMPTY".to_string(), "old".to_string());
    assert_eq!(save_credential("PULSE_TEST_EMPTY", "", &mut m), Ok(true));
    assert!(m.get("PULSE_TEST_EMPTY").is_none());
    assert_eq!(save_credential("PULSE_TEST_EMPTY", "", &mut m), Ok(false));
}

#[test]
fn saving_a_value_stores_it_somewhere() {
    let mut m = StringMap::new();
    let r = save_credential("PULSE_TEST_SAVE", "secret", &mut m);
    match r {
        Ok(true) => assert_eq!(m.get("PULSE_TEST_SAVE").map(|s| s.as_str()), Some("secret")),
        Ok(false) => assert!(m.get("PULSE_TEST_SAVE").is_none()),
        Err(e) => panic!("unexpected error {e}"),
    }
}
