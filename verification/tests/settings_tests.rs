use mood::settings::{AppConfig, AppSecrets, SettingsError, CONFIG_FIELDS, SECRET_FIELDS};

fn s(v: &str) -> String {
    v.to_string()
}

#[test]
fn new_config_is_empty_and_clean() {
    let c = AppConfig::new();
    let vals = c.get(&["BRIDGE_ADDRESS", "BRIDGE_PORT", "APP_ID", "ENTERTAINMENT_CONFIG_ID"]).unwrap();
    assert!(vals.iter().all(|v| v.is_empty()));
    assert!(c.values_to_save().is_none());
    for i in 0..CONFIG_FIELDS {
        assert!(!c.is_set(i));
    }
}

#[test]
fn config_fields_and_labels() {
    let c = AppConfig::new();
    let keys: Vec<&str> = (0..CONFIG_FIELDS).map(|i| c.key(i)).collect();
    assert_eq!(keys, vec!["BRIDGE_ADDRESS", "BRIDGE_PORT", "APP_ID", "ENTERTAINMENT_CONFIG_ID"]);
    let labels: Vec<&str> = (0..CONFIG_FIELDS).map(|i| c.label(i)).collect();
    assert_eq!(labels, vec!["Bridge IP address", "Bridge port", "App ID", "Entertainment config ID"]);
}

#[test]
fn unknown_config_field_is_reported() {
    let c = AppConfig::new();
    let err = c.get(&["APP_ID", "NOPE", "ALSO_NOPE"]).unwrap_err();
    assert_eq!(err, SettingsError::UnknownConfigField(s("NOPE")));
    assert_eq!(err.message(), "unknown config field: NOPE");
}

#[test]
fn unknown_secret_is_reported() {
    let sec = AppSecrets::new();
    let err = sec.get(&["BRIDGE_PORT"]).unwrap_err();
    assert_eq!(err, SettingsError::UnknownSecret(s("BRIDGE_PORT")));
    assert_eq!(err.message(), "unknown secret: BRIDGE_PORT");
}

#[test]
fn get_returns_values_in_key_order() {
    let mut c = AppConfig::new();
    c.apply_saved(&[(s("BRIDGE_PORT"), s("2100")), (s("BRIDGE_ADDRESS"), s("10.0.0.2"))]);
    let vals = c.get(&["BRIDGE_PORT", "BRIDGE_ADDRESS", "BRIDGE_PORT"]).unwrap();
    assert_eq!(vals, vec!["2100", "10.0.0.2", "2100"]);
    assert!(c.get(&[]).unwrap().is_empty());
}

#[test]
fn saved_values_later_wins_unknown_ignored() {
    let mut c = AppConfig::new();
    c.apply_saved(&[(s("APP_ID"), s("a")), (s("OTHER"), s("x")), (s("APP_ID"), s("b"))]);
    assert_eq!(c.get(&["APP_ID"]).unwrap(), vec!["b"]);
    assert!(c.values_to_save().is_none());
}

#[test]
fn environment_overrides_and_prompts() {
    let mut c = AppConfig::new();
    c.apply_saved(&[(s("APP_ID"), s("saved"))]);
    assert!(!c.apply_env(2, Some(s("from-env"))));
    assert_eq!(c.get(&["APP_ID"]).unwrap(), vec!["from-env"]);
    // No environment value, but a saved one: nothing to ask.
    let mut d = AppConfig::new();
    d.apply_saved(&[(s("APP_ID"), s("saved"))]);
    assert!(!d.apply_env(2, None));
    // No environment value and nothing saved: ask.
    assert!(d.apply_env(0, None));
    assert!(d.values_to_save().is_none());
}

#[test]
fn prompted_values_make_the_config_dirty() {
    let mut c = AppConfig::new();
    c.set_prompted(1, s("2100"));
    let pairs = c.values_to_save().unwrap();
    assert_eq!(
        pairs,
        vec![
            (s("BRIDGE_ADDRESS"), s("")),
            (s("BRIDGE_PORT"), s("2100")),
            (s("APP_ID"), s("")),
            (s("ENTERTAINMENT_CONFIG_ID"), s("")),
        ]
    );
}

#[test]
fn setup_answers_replace_or_keep() {
    let mut c = AppConfig::new();
    c.apply_saved(&[(s("APP_ID"), s("old"))]);
    c.apply_setup_answer(2, None);
    assert_eq!(c.get(&["APP_ID"]).unwrap(), vec!["old"]);
    assert!(c.values_to_save().is_none());
    assert!(c.is_set(2));
    c.apply_setup_answer(2, Some(s("new")));
    assert_eq!(c.get(&["APP_ID"]).unwrap(), vec!["new"]);
    assert!(c.values_to_save().is_some());
}

#[test]
fn new_secrets_are_empty() {
    let sec = AppSecrets::new();
    assert_eq!(sec.get(&["APP_KEY", "CLIENT_KEY"]).unwrap(), vec!["", ""]);
    assert!(sec.to_store().is_empty());
    let names: Vec<(&str, &str, &str)> =
        (0..SECRET_FIELDS).map(|i| (sec.key(i), sec.label(i), sec.keyring_key(i))).collect();
    assert_eq!(names, vec![("APP_KEY", "App key", "app-key"), ("CLIENT_KEY", "Client key", "client-key")]);
}

#[test]
fn secrets_come_from_env_then_keyring_then_prompt() {
    let mut sec = AppSecrets::new();
    assert!(!sec.apply_env(0, Some(s("env-app-key"))));
    assert!(sec.apply_env(1, None));
    assert!(sec.apply_stored(1, None));
    sec.set_prompted(1, s("typed"));
    assert_eq!(sec.get(&["APP_KEY", "CLIENT_KEY"]).unwrap(), vec!["env-app-key", "typed"]);
    assert_eq!(sec.to_store(), vec![("client-key", s("typed"))]);
}

#[test]
fn stored_secret_needs_no_prompt() {
    let mut sec = AppSecrets::new();
    assert!(!sec.apply_stored(0, Some(s("kept"))));
    assert!(sec.is_set(0));
    assert!(sec.to_store().is_empty());
    assert!(sec.apply_stored(0, Some(s(""))));
}

#[test]
fn secret_setup_answers_mark_each_secret() {
    let mut sec = AppSecrets::new();
    sec.apply_setup_answer(0, Some(s("a")));
    sec.apply_setup_answer(1, None);
    assert_eq!(sec.to_store(), vec![("app-key", s("a"))]);
    sec.apply_setup_answer(1, Some(s("b")));
    assert_eq!(sec.to_store(), vec![("app-key", s("a")), ("client-key", s("b"))]);
}

#[test]
fn saved_config_reads_back() {
    let mut c = AppConfig::new();
    c.set_prompted(0, s("10.0.0.9"));
    c.set_prompted(3, s("cfg"));
    let pairs = c.values_to_save().unwrap();
    let mut d = AppConfig::new();
    d.apply_saved(&pairs);
    assert_eq!(
        d.get(&["BRIDGE_ADDRESS", "BRIDGE_PORT", "APP_ID", "ENTERTAINMENT_CONFIG_ID"]).unwrap(),
        c.get(&["BRIDGE_ADDRESS", "BRIDGE_PORT", "APP_ID", "ENTERTAINMENT_CONFIG_ID"]).unwrap()
    );
}

#[test]
fn file_text_only_when_changed() {
    let mut c = AppConfig::new();
    assert!(c.file_text().is_none());
    c.set_prompted(1, s("2100"));
    let text = c.file_text().unwrap();
    let saved: std::collections::HashMap<String, String> = serde_json::from_str(&text).unwrap();
    assert_eq!(saved.len(), 4);
    assert_eq!(saved["BRIDGE_PORT"], "2100");
    assert_eq!(saved["ENTERTAINMENT_CONFIG_ID"], "");
}

#[test]
fn apply_file_sets_named_fields_and_ignores_others() {
    let mut c = AppConfig::new();
    c.set_prompted(0, s("keep"));
    c.apply_file("{\"APP_ID\": \"42\", \"UNKNOWN\": \"x\"}").unwrap();
    assert_eq!(
        c.get(&["BRIDGE_ADDRESS", "BRIDGE_PORT", "APP_ID", "ENTERTAINMENT_CONFIG_ID"]).unwrap(),
        vec!["keep", "", "42", ""]
    );
}

#[test]
fn apply_file_rejects_bad_text_and_keeps_values() {
    let mut c = AppConfig::new();
    c.set_prompted(2, s("7"));
    assert!(c.apply_file("{\"APP_ID\": 8}").is_err());
    assert!(c.apply_file("").is_err());
    assert_eq!(c.get(&["APP_ID"]).unwrap(), vec!["7"]);
}
