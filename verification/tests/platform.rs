use seshd::launcher::platform::{MockPlatform, Platform};
use seshd::launcher::{find_app, no_such_app};
use seshd::config::{check_unique_ids, AppSpec};

#[test]
fn mock_records_what_was_spawned() {
    let mut platform = MockPlatform::new();
    platform.spawn("kodi", &["--fullscreen".to_string()]).unwrap();

    assert_eq!(
        platform.spawned(),
        vec![("kodi".to_string(), vec!["--fullscreen".to_string()])]
    );
}

#[test]
fn mock_reports_spawned_processes_as_running() {
    let mut platform = MockPlatform::new();
    let pid = platform.spawn("retroarch", &[]).unwrap();
    assert!(platform.is_running(pid));
}

#[test]
fn mock_kill_stops_a_process() {
    let mut platform = MockPlatform::new();
    let pid = platform.spawn("retroarch", &[]).unwrap();
    platform.kill(pid).unwrap();
    assert!(!platform.is_running(pid));
}

#[test]
fn mock_can_simulate_a_process_exiting_on_its_own() {
    let mut platform = MockPlatform::new();
    let pid = platform.spawn("kodi", &[]).unwrap();
    platform.simulate_exit(pid);
    assert!(!platform.is_running(pid));
}

#[test]
fn mock_pids_are_unique() {
    let mut platform = MockPlatform::new();
    let a = platform.spawn("a", &[]).unwrap();
    let b = platform.spawn("b", &[]).unwrap();
    assert_ne!(a, b);
}

#[test]
fn mock_failures_are_one_shot() {
    let mut platform = MockPlatform::new();
    platform.fail_next_spawn();
    assert_eq!(platform.spawn("kodi", &[]), Err("simulated spawn failure".to_string()));
    let pid = platform.spawn("kodi", &[]).unwrap();
    platform.fail_next_kill();
    assert_eq!(platform.kill(pid), Err("simulated kill failure".to_string()));
    assert!(platform.is_running(pid));
    platform.kill(pid).unwrap();
    assert!(platform.running_pids().is_empty());
    assert_eq!(platform.spawn("", &[]), Err("empty program name".to_string()));
}

#[test]
fn running_pids_are_ascending() {
    let mut platform = MockPlatform::new();
    let a = platform.spawn("a", &[]).unwrap();
    let b = platform.spawn("b", &[]).unwrap();
    let c = platform.spawn("c", &[]).unwrap();
    platform.simulate_exit(b);
    assert_eq!(platform.running_pids(), vec![a, c]);
}

fn app(id: &str) -> AppSpec {
    AppSpec {
        id: id.into(),
        name: id.into(),
        command: id.into(),
        args: vec![],
        icon: String::new(),
    }
}

#[test]
fn an_app_is_found_by_its_id() {
    let apps = vec![app("kodi"), app("retroarch")];
    assert_eq!(find_app(&apps, "retroarch").map(|a| a.id.as_str()), Some("retroarch"));
    assert!(find_app(&apps, "steam").is_none());
    assert_eq!(no_such_app("steam"), "no such app: steam");
}

#[test]
fn a_repeated_id_is_refused() {
    let error = check_unique_ids(vec![app("kodi"), app("retroarch"), app("kodi")]).unwrap_err();
    assert!(error.contains("duplicate app id"), "got {error}");
    assert!(error.contains("kodi"));
}

#[test]
fn no_apps_is_a_valid_registry() {
    assert!(check_unique_ids(vec![]).unwrap().is_empty());
}

#[test]
fn distinct_ids_keep_their_order() {
    let ids: Vec<String> = check_unique_ids(vec![app("kodi"), app("moonlight")])
        .unwrap()
        .into_iter()
        .map(|a| a.id)
        .collect();
    assert_eq!(ids, vec!["kodi", "moonlight"]);
}
