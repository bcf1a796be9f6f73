use mood::session::{LoadAction, LoadEvent, LoadPhase, SetupAction, SetupEvent, SetupPhase};
use mood::settings::AppSettings;
use std::collections::HashMap;

fn s(v: &str) -> String {
    v.to_string()
}

#[test]
fn load_takes_env_then_file_and_asks_for_the_rest() {
    let mut settings = AppSettings::new();
    let mut phase = LoadPhase::Start;
    let mut log: Vec<String> = Vec::new();
    let mut action = settings.load(&mut phase, LoadEvent::Saved(Some(s("{\"BRIDGE_PORT\": \"2100\", \"OTHER\": \"x\"}"))));
    loop {
        let event = match action {
            LoadAction::ReadEnv(name) => {
                log.push(format!("env {name}"));
                LoadEvent::Env(if name == "BRIDGE_ADDRESS" || name == "APP_KEY" { Some(s("from-env")) } else { None })
            },
            LoadAction::ReadKeyring(name) => {
                log.push(format!("keyring {name}"));
                LoadEvent::Stored(None)
            },
            LoadAction::Prompt(label) => {
                log.push(format!("prompt {label}"));
                LoadEvent::Answer(s("typed"))
            },
            LoadAction::SaveConfig(text) => {
                let saved: HashMap<String, String> = serde_json::from_str(&text).unwrap();
                log.push(format!("save {}", saved.len()));
                assert_eq!(saved["BRIDGE_PORT"], "2100");
                assert_eq!(saved["APP_ID"], "typed");
                LoadEvent::Done
            },
            LoadAction::StoreSecrets(pairs) => {
                log.push(format!("store {:?}", pairs));
                LoadEvent::Done
            },
            LoadAction::Finished => break,
            LoadAction::InvalidConfigFile(e) => panic!("{e}"),
        };
        action = settings.load(&mut phase, event);
    }
    assert_eq!(phase, LoadPhase::Finished);
    assert_eq!(
        log,
        vec![
            "env BRIDGE_ADDRESS",
            "env BRIDGE_PORT",
            "env APP_ID",
            "prompt App ID",
            "env ENTERTAINMENT_CONFIG_ID",
            "prompt Entertainment config ID",
            "save 4",
            "env APP_KEY",
            "env CLIENT_KEY",
            "keyring client-key",
            "prompt Client key",
            "store [(\"client-key\", \"typed\")]",
        ]
    );
    assert_eq!(
        settings.config.get(&["BRIDGE_ADDRESS", "BRIDGE_PORT", "APP_ID", "ENTERTAINMENT_CONFIG_ID"]).unwrap(),
        vec!["from-env", "2100", "typed", "typed"]
    );
    assert_eq!(settings.secrets.get(&["APP_KEY", "CLIENT_KEY"]).unwrap(), vec!["from-env", "typed"]);
}

#[test]
fn load_without_prompts_saves_nothing() {
    let mut settings = AppSettings::new();
    let mut phase = LoadPhase::Start;
    let mut action = settings.load(&mut phase, LoadEvent::Saved(None));
    let mut saved = false;
    loop {
        let event = match action {
            LoadAction::ReadEnv(_) => LoadEvent::Env(Some(s("v"))),
            LoadAction::ReadKeyring(_) => LoadEvent::Stored(Some(s("k"))),
            LoadAction::Prompt(_) => panic!("nothing should be asked"),
            LoadAction::SaveConfig(_) => {
                saved = true;
                LoadEvent::Done
            },
            LoadAction::StoreSecrets(pairs) => {
                assert!(pairs.is_empty());
                LoadEvent::Done
            },
            LoadAction::Finished => break,
            LoadAction::InvalidConfigFile(e) => panic!("{e}"),
        };
        action = settings.load(&mut phase, event);
    }
    assert!(!saved);
}

#[test]
fn setup_asks_everything_and_saves_changes() {
    let mut settings = AppSettings::new();
    settings.config.apply_saved(&[(s("APP_ID"), s("old"))]);
    let mut phase = SetupPhase::Start;
    let mut action = settings.run_setup(&mut phase, SetupEvent::Begin);
    let mut asked: Vec<(String, bool)> = Vec::new();
    let mut saves = 0;
    let mut stored = Vec::new();
    loop {
        let event = match action {
            SetupAction::Ask { label, is_set } => {
                asked.push((s(label), is_set));
                SetupEvent::Answer(if label == "Bridge port" || label == "Client key" { Some(s("new")) } else { None })
            },
            SetupAction::SaveConfig(text) => {
                saves += 1;
                let saved: HashMap<String, String> = serde_json::from_str(&text).unwrap();
                assert_eq!(saved.len(), 4);
                assert_eq!(saved["BRIDGE_PORT"], "new");
                assert_eq!(saved["APP_ID"], "old");
                assert_eq!(saved["BRIDGE_ADDRESS"], "");
                SetupEvent::Done
            },
            SetupAction::StoreSecrets(pairs) => {
                stored = pairs;
                SetupEvent::Done
            },
            SetupAction::Finished => break,
        };
        action = settings.run_setup(&mut phase, event);
    }
    assert_eq!(
        asked,
        vec![
            (s("Bridge IP address"), false),
            (s("Bridge port"), false),
            (s("App ID"), true),
            (s("Entertainment config ID"), false),
            (s("App key"), false),
            (s("Client key"), false),
        ]
    );
    assert_eq!(saves, 1);
    assert_eq!(stored, vec![("client-key", s("new"))]);
}

#[test]
fn setup_without_answers_writes_no_config() {
    let mut settings = AppSettings::new();
    let mut phase = SetupPhase::Start;
    let mut action = settings.run_setup(&mut phase, SetupEvent::Begin);
    loop {
        let event = match action {
            SetupAction::Ask { .. } => SetupEvent::Answer(None),
            SetupAction::SaveConfig(_) => panic!("nothing changed"),
            SetupAction::StoreSecrets(pairs) => {
                assert!(pairs.is_empty());
                SetupEvent::Done
            },
            SetupAction::Finished => break,
        };
        action = settings.run_setup(&mut phase, event);
    }
    assert_eq!(phase, SetupPhase::Finished);
}

#[test]
fn load_stops_on_a_config_file_that_is_not_an_object_of_strings() {
    for text in ["not json", "[1, 2]", "{\"BRIDGE_PORT\": 2100}"] {
        let mut settings = AppSettings::new();
        let mut phase = LoadPhase::Start;
        let action = settings.load(&mut phase, LoadEvent::Saved(Some(s(text))));
        assert!(matches!(action, LoadAction::InvalidConfigFile(_)));
        assert_eq!(phase, LoadPhase::Failed);
        assert!(settings.config.get(&["BRIDGE_PORT"]).unwrap()[0].is_empty());
    }
}

#[test]
fn load_reads_an_empty_config_object() {
    let mut settings = AppSettings::new();
    let mut phase = LoadPhase::Start;
    let action = settings.load(&mut phase, LoadEvent::Saved(Some(s("{}"))));
    assert!(matches!(action, LoadAction::ReadEnv("BRIDGE_ADDRESS")));
    assert_eq!(phase, LoadPhase::ConfigEnv(0));
}

#[test]
fn written_config_file_is_loaded_back() {
    let mut written = AppSettings::new();
    written.config.set_prompted(0, s("10.0.0.2"));
    written.config.set_prompted(1, s("2100"));
    written.config.set_prompted(2, s("say \"hi\"\n"));
    let text = written.config.file_text().unwrap();
    let mut settings = AppSettings::new();
    settings.config.set_prompted(3, s("before"));
    let mut phase = LoadPhase::Start;
    let action = settings.load(&mut phase, LoadEvent::Saved(Some(text)));
    assert!(matches!(action, LoadAction::ReadEnv("BRIDGE_ADDRESS")));
    assert_eq!(
        settings.config.get(&["BRIDGE_ADDRESS", "BRIDGE_PORT", "APP_ID", "ENTERTAINMENT_CONFIG_ID"]).unwrap(),
        vec!["10.0.0.2", "2100", "say \"hi\"\n", ""]
    );
}
