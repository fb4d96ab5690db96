use homarr_adapter::discovery::{ContainerEvent, DiscoveredApp};
use homarr_adapter::engine::{apply_event, sync_apps};
use homarr_adapter::state::State;

fn app(id: &str, name: &str, url: &str) -> DiscoveredApp {
    DiscoveredApp {
        container_id: id.to_string(),
        container_name: name.to_lowercase(),
        name: name.to_string(),
        description: None,
        url: url.to_string(),
        icon_url: None,
        category: None,
    }
}

#[test]
fn test_full_sync_records_and_reports_new_apps() {
    let mut state = State::default();
    let discovered = vec![app("a1", "One", "http://one"), app("a2", "Two", "http://two")];

    let adds = sync_apps(&mut state, &discovered, 100);

    assert_eq!(adds.len(), 2);
    assert_eq!(adds[0].container_id, "a1");
    assert_eq!(adds[1].container_id, "a2");
    assert_eq!(state.discovered_apps.len(), 2);
    assert_eq!(state.discovered_apps[0].1.added_at, 100);
    assert_eq!(state.last_sync, Some(100));
}

#[test]
fn test_full_sync_twice_is_idempotent() {
    let mut state = State::default();
    let discovered = vec![app("a1", "One", "http://one"), app("a2", "Two", "http://two")];

    sync_apps(&mut state, &discovered, 100);
    let before = state.save();
    let adds = sync_apps(&mut state, &discovered, 100);

    // Second run: zero dashboard mutations, identical state
    assert!(adds.is_empty());
    assert_eq!(state.save(), before);
}

#[test]
fn test_full_sync_keeps_original_added_at() {
    let mut state = State::default();
    let discovered = vec![app("a1", "One", "http://one")];

    sync_apps(&mut state, &discovered, 100);
    let adds = sync_apps(&mut state, &discovered, 999);

    assert!(adds.is_empty());
    assert_eq!(state.discovered_apps[0].1.added_at, 100);
    assert_eq!(state.last_sync, Some(999));
}

#[test]
fn test_full_sync_forgets_absent_apps_only_from_record() {
    let mut state = State::default();
    sync_apps(
        &mut state,
        &vec![app("a1", "One", "http://one"), app("a2", "Two", "http://two")],
        100,
    );

    let adds = sync_apps(&mut state, &vec![app("a2", "Two", "http://two")], 200);

    assert!(adds.is_empty());
    assert_eq!(state.discovered_apps.len(), 1);
    assert_eq!(state.discovered_apps[0].0, "a2");
}

#[test]
fn test_removed_set_never_readded_by_full_sync() {
    let mut state = State::default();
    state.mark_removed("a1");
    let saved = state.save();

    // Reload from the persisted form, then rediscover the removed identifier
    let mut reloaded = State::load(Some(&saved));
    let adds = sync_apps(&mut reloaded, &vec![app("a1", "One", "http://one")], 100);

    assert!(adds.is_empty());
    assert!(reloaded.discovered_apps.is_empty());
    assert!(reloaded.is_removed("a1"));
}

#[test]
fn test_apply_event_started_records_new_app() {
    let mut state = State::default();
    let event = ContainerEvent::Started(app("a1", "One", "http://one"));

    let action = apply_event(&mut state, &event, 50);

    assert!(action.is_some());
    assert_eq!(action.unwrap().container_id, "a1");
    assert_eq!(state.discovered_apps.len(), 1);
    assert_eq!(state.discovered_apps[0].1.added_at, 50);
}

#[test]
fn test_apply_event_started_removed_is_skipped() {
    let mut state = State::default();
    state.mark_removed("a1");
    let event = ContainerEvent::Started(app("a1", "One", "http://one"));

    let action = apply_event(&mut state, &event, 50);

    assert!(action.is_none());
    assert!(state.discovered_apps.is_empty());
}

#[test]
fn test_apply_event_started_recorded_causes_no_action() {
    let mut state = State::default();
    sync_apps(&mut state, &vec![app("a1", "One", "http://one")], 10);

    let event = ContainerEvent::Started(app("a1", "One Renamed", "http://one"));
    let action = apply_event(&mut state, &event, 50);

    assert!(action.is_none());
    assert_eq!(state.discovered_apps.len(), 1);
    // Superseded content, original time of first addition
    assert_eq!(state.discovered_apps[0].1.name, "One Renamed");
    assert_eq!(state.discovered_apps[0].1.added_at, 10);
}

#[test]
fn test_apply_event_stopped_forgets_record() {
    let mut state = State::default();
    sync_apps(
        &mut state,
        &vec![app("a1", "One", "http://one"), app("a2", "Two", "http://two")],
        10,
    );

    let action = apply_event(&mut state, &ContainerEvent::Stopped("a1".to_string()), 50);

    assert!(action.is_none());
    assert_eq!(state.discovered_apps.len(), 1);
    assert_eq!(state.discovered_apps[0].0, "a2");
}
