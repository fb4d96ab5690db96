use homarr_adapter::onboarding::{
    board_by_name_url, color_scheme_payload, create_app_payload, create_board_payload,
    init_user_payload, onboarding_action, set_home_board_payload, settings_payload, trim_base_url,
    AdminCredentials, AnalyticsSettings, BoardSettings, CrawlingSettings, OnboardingAction,
    OnboardingStep, SetupPhase, SetupRun, TileSettings,
};

fn step(name: &str) -> OnboardingStep {
    OnboardingStep { current: name.to_string(), previous: None }
}

#[test]
fn test_onboarding_action_dispatch() {
    assert_eq!(onboarding_action(&step("finish")), OnboardingAction::Finish);
    assert_eq!(onboarding_action(&step("start")), OnboardingAction::Advance);
    assert_eq!(onboarding_action(&step("user")), OnboardingAction::CreateUser);
    assert_eq!(onboarding_action(&step("settings")), OnboardingAction::ConfigureSettings);
    // Forward compatibility: unknown steps are advanced, never hang
    assert_eq!(onboarding_action(&step("someFutureStep")), OnboardingAction::Advance);
}

#[test]
fn test_terminal_step_performs_no_side_effect() {
    // A second orchestration run that reads the terminal step stops at once:
    // no admin-creation and no settings call can be reached
    let a = onboarding_action(&step("finish"));
    assert_eq!(a, OnboardingAction::Finish);
    assert_ne!(a, OnboardingAction::CreateUser);
    assert_ne!(a, OnboardingAction::ConfigureSettings);
}

#[test]
fn test_init_user_payload_duplicates_password() {
    let c = AdminCredentials { username: "admin".to_string(), password: "s3cret".to_string() };
    assert_eq!(
        init_user_payload(&c),
        "{\"json\":{\"username\":\"admin\",\"password\":\"s3cret\",\"confirmPassword\":\"s3cret\"}}"
    );
}

#[test]
fn test_settings_payload_exact() {
    let a = AnalyticsSettings {
        enable_general: false,
        enable_widget_data: false,
        enable_integration_data: true,
        enable_user_data: false,
    };
    let c = CrawlingSettings {
        no_index: true,
        no_follow: true,
        no_translate: false,
        no_sitelinks_search_box: true,
    };
    let expected = "{\"json\":{\"analytics\":{\"enableGeneral\":false,\"enableWidgetData\":false,\"enableIntegrationData\":true,\"enableUserData\":false},\"crawlingAndIndexing\":{\"noIndex\":true,\"noFollow\":true,\"noTranslate\":false,\"noSiteLinksSearchBox\":true}}}";
    assert_eq!(settings_payload(&a, &c), expected);
}

#[test]
fn test_create_board_payload_exact() {
    let b = BoardSettings { name: "General".to_string(), column_count: 12, is_public: false };
    assert_eq!(
        create_board_payload(&b),
        "{\"json\":{\"name\":\"General\",\"columnCount\":12,\"isPublic\":false}}"
    );
}

#[test]
fn test_create_app_payload_never_pings() {
    let t = TileSettings {
        enabled: true,
        name: "Cockpit".to_string(),
        description: "System console".to_string(),
        icon_url: "https://icons/cockpit.png".to_string(),
        href: "https://host:9090".to_string(),
        width: 2,
        height: 1,
        x_offset: 0,
        y_offset: 0,
    };
    let payload = create_app_payload(&t);
    assert!(payload.ends_with("\"pingUrl\":null}}"));
    assert!(payload.contains("\"name\":\"Cockpit\""));
    assert!(payload.contains("\"href\":\"https://host:9090\""));
}

#[test]
fn test_save_board_payload_places_tile() {
    let t = TileSettings {
        enabled: true,
        name: "Cockpit".to_string(),
        description: "".to_string(),
        icon_url: "".to_string(),
        href: "".to_string(),
        width: 2,
        height: 1,
        x_offset: 3,
        y_offset: 4,
    };
    let payload = homarr_adapter::onboarding::save_board_payload(
        "board-1",
        "[{\"id\":\"s1\",\"kind\":\"empty\",\"yOffset\":0,\"xOffset\":0}]",
        "app-9",
        "lay-1",
        "s1",
        &t,
    );
    let value: serde_json::Value = serde_json::from_str(&payload).unwrap();
    assert_eq!(value["json"]["id"], "board-1");
    assert_eq!(value["json"]["sections"][0]["id"], "s1");
    assert_eq!(value["json"]["items"][0]["id"], "cockpit-app-9");
    assert_eq!(value["json"]["items"][0]["appId"], "app-9");
    assert_eq!(value["json"]["items"][0]["layouts"][0]["width"], 2);
    assert_eq!(value["json"]["items"][0]["layouts"][0]["yOffset"], 4);
    assert_eq!(value["json"]["integrations"], serde_json::Value::Array(vec![]));
}

#[test]
fn test_small_payloads_exact() {
    assert_eq!(set_home_board_payload("b-17"), "{\"json\":{\"id\":\"b-17\"}}");
    assert_eq!(color_scheme_payload("dark"), "{\"json\":{\"colorScheme\":\"dark\"}}");
}

#[test]
fn test_board_by_name_url_percent_encodes_query() {
    let url = board_by_name_url("http://localhost:7575", "My Board");
    let expected = format!(
        "http://localhost:7575/api/trpc/board.getBoardByName?input={}",
        urlencoding::encode("{\"json\":{\"name\":\"My Board\"}}")
    );
    assert_eq!(url, expected);
    // The query is really encoded, not passed through
    assert!(url.contains("%7B%22json%22"));
    assert!(!url.contains('{'));
}

#[test]
fn test_trim_base_url() {
    assert_eq!(trim_base_url("http://h:7575/"), "http://h:7575");
    assert_eq!(trim_base_url("http://h:7575///"), "http://h:7575");
    assert_eq!(trim_base_url("http://h:7575"), "http://h:7575");
    assert_eq!(trim_base_url(""), "");
}

#[test]
fn test_setup_run_happy_path_completes() {
    let mut run = SetupRun::new();
    assert_eq!(run.phase, SetupPhase::Login);
    run.step(true, true); // login
    assert_eq!(run.phase, SetupPhase::FindBoard);
    run.step(false, true); // board not found
    assert_eq!(run.phase, SetupPhase::CreateBoard);
    run.step(true, true); // created
    assert_eq!(run.phase, SetupPhase::EnsureTile);
    run.step(true, true);
    assert_eq!(run.phase, SetupPhase::SetHome);
    run.step(true, true);
    assert_eq!(run.phase, SetupPhase::SetTheme);
    run.step(true, true);
    assert_eq!(run.phase, SetupPhase::Done);
    // A lookup miss is an expected answer: this run still marks completion
    assert!(run.complete());
}

#[test]
fn test_setup_run_existing_board_completes() {
    let mut run = SetupRun::new();
    run.step(true, false); // login
    run.step(true, false); // board found; no tile configured
    assert_eq!(run.phase, SetupPhase::SetHome);
    run.step(true, false);
    run.step(true, false);
    assert_eq!(run.phase, SetupPhase::Done);
    assert!(run.complete());
}

#[test]
fn test_setup_run_login_failure_is_fatal() {
    let mut run = SetupRun::new();
    run.step(false, true);
    assert_eq!(run.phase, SetupPhase::Failed);
    assert!(!run.complete());
}

#[test]
fn test_setup_run_idempotent_phase_failure_continues() {
    let mut run = SetupRun::new();
    run.step(true, true); // login
    run.step(true, true); // board found
    run.step(false, true); // tile creation failed: non-fatal
    assert_eq!(run.phase, SetupPhase::SetHome);
    run.step(true, true);
    run.step(false, true); // theme failed: non-fatal
    assert_eq!(run.phase, SetupPhase::Done);
    // But completion is not signalled, so the next run retries
    assert!(!run.complete());
}
