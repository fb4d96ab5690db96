use homarr_adapter::discovery::{
    classify_event, discover_apps, get_container_app, parse_homarr_labels, ContainerEvent,
    ContainerInfo, DiscoveredApp, EventDecision, LabelMap,
};

fn make_labels(pairs: &[(&str, &str)]) -> LabelMap {
    let mut m = LabelMap::new();
    for (k, v) in pairs {
        m.insert(k, v);
    }
    m
}

// ContainerEvent tests
#[test]
fn test_container_event_started_contains_app_data() {
    let app = DiscoveredApp {
        container_id: "abc123".to_string(),
        container_name: "test-container".to_string(),
        name: "Test App".to_string(),
        description: Some("A test app".to_string()),
        url: "http://localhost:8080".to_string(),
        icon_url: Some("https://example.com/icon.png".to_string()),
        category: Some("Development".to_string()),
    };

    let event = ContainerEvent::Started(app.clone());

    match event {
        ContainerEvent::Started(inner_app) => {
            assert_eq!(inner_app.container_id, "abc123");
            assert_eq!(inner_app.name, "Test App");
            assert_eq!(inner_app.url, "http://localhost:8080");
        }
        ContainerEvent::Stopped(_) => panic!("Expected Started event"),
    }
}

#[test]
fn test_container_event_stopped_contains_container_id() {
    let event = ContainerEvent::Stopped("container123".to_string());

    match event {
        ContainerEvent::Stopped(id) => {
            assert_eq!(id, "container123");
        }
        ContainerEvent::Started(_) => panic!("Expected Stopped event"),
    }
}

#[test]
fn test_container_event_clone() {
    let app = DiscoveredApp {
        container_id: "abc123".to_string(),
        container_name: "test".to_string(),
        name: "Test".to_string(),
        description: None,
        url: "http://test".to_string(),
        icon_url: None,
        category: None,
    };

    let event = ContainerEvent::Started(app);
    let cloned = event.clone();

    match (&event, &cloned) {
        (ContainerEvent::Started(e1), ContainerEvent::Started(e2)) => {
            assert_eq!(e1.container_id, e2.container_id);
            assert_eq!(e1.name, e2.name);
        }
        _ => panic!("Clone should produce same variant"),
    }
}

// DiscoveredApp tests
#[test]
fn test_discovered_app_clone() {
    let app = DiscoveredApp {
        container_id: "abc123".to_string(),
        container_name: "test-container".to_string(),
        name: "Test App".to_string(),
        description: Some("Description".to_string()),
        url: "http://localhost".to_string(),
        icon_url: Some("https://icon.url".to_string()),
        category: Some("Category".to_string()),
    };

    let cloned = app.clone();

    assert_eq!(app.container_id, cloned.container_id);
    assert_eq!(app.container_name, cloned.container_name);
    assert_eq!(app.name, cloned.name);
    assert_eq!(app.description, cloned.description);
    assert_eq!(app.url, cloned.url);
    assert_eq!(app.icon_url, cloned.icon_url);
    assert_eq!(app.category, cloned.category);
}

#[test]
fn test_discovered_app_debug_format() {
    let app = DiscoveredApp {
        container_id: "abc123".to_string(),
        container_name: "test".to_string(),
        name: "Test App".to_string(),
        description: None,
        url: "http://test".to_string(),
        icon_url: None,
        category: None,
    };

    let debug_str = format!("{:?}", app);
    assert!(debug_str.contains("Test App"));
    assert!(debug_str.contains("abc123"));
}

// parse_homarr_labels tests
#[test]
fn test_parse_homarr_labels_all_fields() {
    let labels = make_labels(&[
        ("homarr.name", "My App"),
        ("homarr.url", "http://localhost:8080"),
        ("homarr.description", "Test application"),
        ("homarr.icon", "https://example.com/icon.png"),
        ("homarr.category", "Development"),
        ("com.docker.compose.service", "myapp"),
    ]);

    let app = parse_homarr_labels("abc123def456", &labels).unwrap();
    assert_eq!(app.name, "My App");
    assert_eq!(app.url, "http://localhost:8080");
    assert_eq!(app.description, Some("Test application".to_string()));
    assert_eq!(app.icon_url, Some("https://example.com/icon.png".to_string()));
    assert_eq!(app.category, Some("Development".to_string()));
    assert_eq!(app.container_name, "myapp");
    assert_eq!(app.container_id, "abc123def456");
}

#[test]
fn test_parse_homarr_labels_required_only() {
    let labels = make_labels(&[
        ("homarr.name", "Minimal App"),
        ("homarr.url", "http://localhost:3000"),
    ]);

    let app = parse_homarr_labels("abcdef123456789", &labels).unwrap();
    assert_eq!(app.name, "Minimal App");
    assert_eq!(app.url, "http://localhost:3000");
    assert_eq!(app.description, None);
    assert_eq!(app.icon_url, None);
    assert_eq!(app.category, None);
    // Container name should be truncated container ID
    assert_eq!(app.container_name, "abcdef123456");
}

#[test]
fn test_parse_homarr_labels_missing_name() {
    let labels = make_labels(&[("homarr.url", "http://localhost:8080")]);

    let result = parse_homarr_labels("container123", &labels);
    assert!(result.is_none());
}

#[test]
fn test_parse_homarr_labels_missing_url() {
    let labels = make_labels(&[("homarr.name", "App Without URL")]);

    let result = parse_homarr_labels("container123", &labels);
    assert!(result.is_none());
}

#[test]
fn test_parse_homarr_labels_short_container_id() {
    let labels = make_labels(&[("homarr.name", "Test"), ("homarr.url", "http://test")]);

    // Container ID shorter than 12 chars should be used as-is
    let app = parse_homarr_labels("short", &labels).unwrap();
    assert_eq!(app.container_name, "short");
}

#[test]
fn test_parse_homarr_labels_compose_service_overrides_id() {
    let labels = make_labels(&[
        ("homarr.name", "Test"),
        ("homarr.url", "http://test"),
        ("com.docker.compose.service", "custom-service"),
    ]);

    let app = parse_homarr_labels("abcdef123456789", &labels).unwrap();
    // Compose service name should be used instead of container ID
    assert_eq!(app.container_name, "custom-service");
}

// Eligibility gate tests
#[test]
fn test_gate_requires_enable_true() {
    let base = [("homarr.name", "App"), ("homarr.url", "http://a")];
    assert!(get_container_app("id1", &make_labels(&base)).is_none());

    let mut with_false = base.to_vec();
    with_false.push(("homarr.enable", "false"));
    assert!(get_container_app("id1", &make_labels(&with_false)).is_none());

    let mut with_other = base.to_vec();
    with_other.push(("homarr.enable", "True"));
    assert!(get_container_app("id1", &make_labels(&with_other)).is_none());

    let mut with_true = base.to_vec();
    with_true.push(("homarr.enable", "true"));
    assert!(get_container_app("id1", &make_labels(&with_true)).is_some());
}

#[test]
fn test_gate_excludes_product_name_case_insensitively() {
    for name in ["homarr", "Homarr", "HOMARR", "hOmArR"] {
        let labels = make_labels(&[
            ("homarr.enable", "true"),
            ("homarr.name", name),
            ("homarr.url", "http://self"),
        ]);
        assert!(get_container_app("id1", &labels).is_none());
    }
    // A name merely containing the product name is not excluded
    let labels = make_labels(&[
        ("homarr.enable", "true"),
        ("homarr.name", "homarr-docs"),
        ("homarr.url", "http://docs"),
    ]);
    assert!(get_container_app("id1", &labels).is_some());
}

#[test]
fn test_end_to_end_minimal_discovery() {
    let labels = make_labels(&[
        ("homarr.enable", "true"),
        ("homarr.name", "Photos"),
        ("homarr.url", "http://photos.local"),
    ]);
    let app = get_container_app("abcdef0123456789", &labels).unwrap();
    assert_eq!(app.name, "Photos");
    assert_eq!(app.url, "http://photos.local");
    assert_eq!(app.description, None);
    assert_eq!(app.icon_url, None);
    assert_eq!(app.category, None);
    assert_eq!(app.container_name, "abcdef012345");
    assert_eq!(app.container_id, "abcdef0123456789");
}

#[test]
fn test_discover_apps_filters_listing() {
    let containers = vec![
        ContainerInfo {
            id: "one".to_string(),
            labels: make_labels(&[
                ("homarr.enable", "true"),
                ("homarr.name", "One"),
                ("homarr.url", "http://one"),
            ]),
        },
        ContainerInfo {
            id: "two".to_string(),
            labels: make_labels(&[("homarr.name", "Two"), ("homarr.url", "http://two")]),
        },
        ContainerInfo {
            id: "three".to_string(),
            labels: make_labels(&[
                ("homarr.enable", "true"),
                ("homarr.name", "homarr"),
                ("homarr.url", "http://self"),
            ]),
        },
        ContainerInfo {
            id: "four".to_string(),
            labels: make_labels(&[
                ("homarr.enable", "true"),
                ("homarr.name", "Four"),
                ("homarr.url", "http://four"),
            ]),
        },
    ];
    let apps = discover_apps(&containers);
    assert_eq!(apps.len(), 2);
    assert_eq!(apps[0].name, "One");
    assert_eq!(apps[1].name, "Four");
}

#[test]
fn test_classify_event_actions() {
    assert_eq!(classify_event("start", "abc"), EventDecision::Inspect);
    assert_eq!(classify_event("stop", "abc"), EventDecision::Stopped);
    assert_eq!(classify_event("die", "abc"), EventDecision::Stopped);
    assert_eq!(classify_event("pause", "abc"), EventDecision::Ignore);
    assert_eq!(classify_event("start", ""), EventDecision::Ignore);
}
