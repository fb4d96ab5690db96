use homarr_adapter::state::{AppRecord, State};

#[test]
fn test_default_state() {
    let state = State::default();
    assert!(!state.first_boot_completed);
    assert!(state.removed_apps.is_empty());
    assert!(state.last_sync.is_none());
    assert!(state.discovered_apps.is_empty());
    // Default gives an empty version; the schema version is written on save
    // by callers that want one
    assert!(state.version.is_empty());
}

#[test]
fn test_load_nonexistent_returns_default() {
    // An absent state file hands the library no contents
    let state = State::load(None);
    assert!(!state.first_boot_completed);
}

#[test]
fn test_save_and_load_roundtrip() {
    let mut state = State::default();
    state.first_boot_completed = true;
    state.mark_removed("app1");
    state.mark_removed("app2");
    state.update_sync_time();

    // Save
    let saved = state.save();

    // Load back
    let loaded = State::load(Some(&saved));
    assert!(loaded.first_boot_completed);
    assert!(loaded.is_removed("app1"));
    assert!(loaded.is_removed("app2"));
    assert!(!loaded.is_removed("app3"));
    assert!(loaded.last_sync.is_some());
}

#[test]
fn test_mark_removed_and_is_removed() {
    let mut state = State::default();

    assert!(!state.is_removed("test-app"));
    state.mark_removed("test-app");
    assert!(state.is_removed("test-app"));
}

#[test]
fn test_update_sync_time() {
    let mut state = State::default();
    assert!(state.last_sync.is_none());

    let before = chrono::Utc::now().timestamp_millis();
    state.update_sync_time();
    let after = chrono::Utc::now().timestamp_millis();

    let sync_time = state.last_sync.unwrap() as i64;
    assert!(sync_time >= before && sync_time <= after);
}

#[test]
fn test_roundtrip_preserves_every_field() {
    let mut state = State::default();
    state.version = "1.0".to_string();
    state.first_boot_completed = true;
    state.removed_apps = vec!["gone-1".to_string(), "with \"quotes\"\\n".to_string()];
    state.last_sync = Some(1700000000123);
    state.discovered_apps = vec![
        (
            "abc123".to_string(),
            AppRecord {
                name: "Photos".to_string(),
                url: "http://photos.local".to_string(),
                added_at: 1690000000000,
            },
        ),
        (
            "def456".to_string(),
            AppRecord {
                name: "Tab\t\"App\"".to_string(),
                url: "http://tabs".to_string(),
                added_at: 7,
            },
        ),
    ];

    let saved = state.save();
    let loaded = State::from_json(&saved).expect("the saved document must read back");

    assert_eq!(loaded.version, state.version);
    assert_eq!(loaded.first_boot_completed, state.first_boot_completed);
    assert_eq!(loaded.removed_apps, state.removed_apps);
    assert_eq!(loaded.last_sync, state.last_sync);
    assert_eq!(loaded.discovered_apps.len(), state.discovered_apps.len());
    for (a, b) in loaded.discovered_apps.iter().zip(state.discovered_apps.iter()) {
        assert_eq!(a.0, b.0);
        assert_eq!(a.1.name, b.1.name);
        assert_eq!(a.1.url, b.1.url);
        assert_eq!(a.1.added_at, b.1.added_at);
    }
}

#[test]
fn test_save_emits_wellformed_json() {
    let mut state = State::default();
    state.version = "1.0".to_string();
    state.mark_removed("old-app");
    state.last_sync = Some(42);
    state.discovered_apps = vec![(
        "abc".to_string(),
        AppRecord { name: "A \"quoted\" name".to_string(), url: "http://a".to_string(), added_at: 9 },
    )];

    let saved = state.save();
    let value: serde_json::Value = serde_json::from_str(&saved).expect("save must emit JSON");
    assert_eq!(value["version"], "1.0");
    assert_eq!(value["first_boot_completed"], false);
    assert_eq!(value["removed_apps"][0], "old-app");
    assert_eq!(value["last_sync"], 42);
    assert_eq!(value["discovered_apps"][0]["id"], "abc");
    assert_eq!(value["discovered_apps"][0]["name"], "A \"quoted\" name");
    assert_eq!(value["discovered_apps"][0]["added_at"], 9);
}

#[test]
fn test_load_corrupt_returns_default() {
    let state = State::load(Some("{not a state document"));
    assert!(!state.first_boot_completed);
    assert!(state.removed_apps.is_empty());
    assert!(state.discovered_apps.is_empty());
    assert!(State::from_json("").is_none());
    assert!(State::from_json("[]").is_none());
}

#[test]
fn test_default_version_value() {
    assert_eq!(homarr_adapter::default_version(), "1.0");
}
