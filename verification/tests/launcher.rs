use seshd::config::AppSpec;
use seshd::event::kind;
use seshd::launcher::platform::MockPlatform;
use seshd::launcher::Launcher;
use seshd::record::MemoryLog;

fn apps() -> Vec<AppSpec> {
    vec![
        AppSpec {
            id: "kodi".into(),
            name: "Kodi".into(),
            command: "kodi".into(),
            args: vec!["--standalone".into()],
            icon: "movie".into(),
        },
        AppSpec {
            id: "retroarch".into(),
            name: "RetroArch".into(),
            command: "retroarch".into(),
            args: vec![],
            icon: "gamepad".into(),
        },
    ]
}

fn fixture() -> (Launcher<MockPlatform>, MemoryLog) {
    (Launcher::new(apps(), MockPlatform::new()), MemoryLog::new())
}

fn kinds(log: &MemoryLog) -> Vec<String> {
    log.events().iter().map(|e| e.kind.clone()).collect()
}

fn subjects(log: &MemoryLog) -> Vec<Option<String>> {
    log.events().iter().map(|e| e.subject.clone()).collect()
}

#[test]
fn nothing_is_running_initially() {
    let (launcher, _) = fixture();
    assert_eq!(launcher.current(), None);
}

#[test]
fn launching_starts_the_configured_command_with_its_args() {
    let (mut launcher, mut log) = fixture();
    launcher.launch("kodi", &mut log).unwrap();

    assert_eq!(
        launcher.platform().spawned(),
        vec![("kodi".to_string(), vec!["--standalone".to_string()])]
    );
    assert_eq!(launcher.current(), Some("kodi".to_string()));
}

#[test]
fn launching_records_an_app_launched_event() {
    let (mut launcher, mut log) = fixture();
    launcher.launch("kodi", &mut log).unwrap();

    assert_eq!(kinds(&log), vec![kind::APP_LAUNCHED.to_string()]);
    assert_eq!(subjects(&log), vec![Some("kodi".to_string())]);
}

#[test]
fn launching_an_unknown_app_is_an_error_and_records_nothing() {
    let (mut launcher, mut log) = fixture();
    let err = launcher.launch("nintendo64", &mut log).unwrap_err();

    assert!(err.contains("nintendo64"), "error should name the id: {err}");
    assert!(kinds(&log).is_empty());
    assert_eq!(launcher.current(), None);
}

#[test]
fn launching_an_unknown_app_while_running_leaves_the_running_app_untouched() {
    let (mut launcher, mut log) = fixture();
    launcher.launch("kodi", &mut log).unwrap();

    let err = launcher.launch("nintendo64", &mut log).unwrap_err();

    assert!(err.contains("nintendo64"), "error should name the id: {err}");
    assert_eq!(launcher.current(), Some("kodi".to_string()));
    assert_eq!(kinds(&log), vec![kind::APP_LAUNCHED.to_string()]);
}

#[test]
fn launching_while_running_quits_the_previous_app_first() {
    let (mut launcher, mut log) = fixture();
    launcher.launch("kodi", &mut log).unwrap();
    launcher.launch("retroarch", &mut log).unwrap();

    assert_eq!(launcher.current(), Some("retroarch".to_string()));
    assert_eq!(
        kinds(&log),
        vec![
            kind::APP_LAUNCHED.to_string(),
            kind::APP_EXITED.to_string(),
            kind::APP_LAUNCHED.to_string(),
        ]
    );
    assert_eq!(launcher.platform().spawned().len(), 2);
    assert_eq!(launcher.platform().running_pids().len(), 1, "exactly one app may be running");
}

#[test]
fn quitting_stops_the_app_and_records_an_exit() {
    let (mut launcher, mut log) = fixture();
    launcher.launch("kodi", &mut log).unwrap();
    launcher.quit(&mut log).unwrap();

    assert_eq!(launcher.current(), None);
    assert_eq!(kinds(&log), vec![kind::APP_LAUNCHED.to_string(), kind::APP_EXITED.to_string()]);
}

#[test]
fn quitting_with_nothing_running_is_a_no_op() {
    let (mut launcher, mut log) = fixture();
    launcher.quit(&mut log).unwrap();

    assert!(kinds(&log).is_empty());
    assert_eq!(launcher.current(), None);
}

#[test]
fn quitting_when_kill_fails_leaves_state_and_the_log_untouched() {
    let (mut launcher, mut log) = fixture();
    launcher.launch("kodi", &mut log).unwrap();

    launcher.platform_mut().fail_next_kill();
    let err = launcher.quit(&mut log).unwrap_err();

    assert!(err.contains("simulated kill failure"));
    assert_eq!(
        launcher.current(),
        Some("kodi".to_string()),
        "a failed kill must not make the Launcher forget the app it couldn't actually stop"
    );
    assert_eq!(
        kinds(&log),
        vec![kind::APP_LAUNCHED.to_string()],
        "no app.exited should be recorded when the app was never confirmed stopped"
    );
}

#[test]
fn reaping_notices_an_app_the_user_quit_from_inside_itself() {
    let (mut launcher, mut log) = fixture();
    launcher.launch("kodi", &mut log).unwrap();

    let pid = launcher.current_pid().unwrap();
    launcher.platform_mut().simulate_exit(pid);

    launcher.reap(&mut log).unwrap();

    assert_eq!(launcher.current(), None);
    assert_eq!(kinds(&log), vec![kind::APP_LAUNCHED.to_string(), kind::APP_EXITED.to_string()]);
}

#[test]
fn reaping_a_still_running_app_changes_nothing() {
    let (mut launcher, mut log) = fixture();
    launcher.launch("kodi", &mut log).unwrap();
    launcher.reap(&mut log).unwrap();

    assert_eq!(launcher.current(), Some("kodi".to_string()));
    assert_eq!(kinds(&log), vec![kind::APP_LAUNCHED.to_string()]);
}

#[test]
fn reaping_with_nothing_running_is_a_no_op() {
    let (mut launcher, mut log) = fixture();
    launcher.reap(&mut log).unwrap();
    assert!(kinds(&log).is_empty());
}

#[test]
fn apps_are_exposed_in_registry_order() {
    let (launcher, _) = fixture();
    let ids: Vec<_> = launcher.apps().iter().map(|a| a.id.as_str()).collect();
    assert_eq!(ids, vec!["kodi", "retroarch"]);
}

#[test]
fn a_launch_that_cannot_be_recorded_stops_what_it_started() {
    let (mut launcher, mut log) = fixture();
    log.fail_next_record();
    let err = launcher.launch("kodi", &mut log).unwrap_err();

    assert!(err.contains("simulated record failure"));
    assert_eq!(launcher.current(), None);
    assert!(kinds(&log).is_empty());
    assert_eq!(launcher.platform().spawned().len(), 1, "it did start");
    assert!(launcher.platform().running_pids().is_empty(), "and nothing is left running");
}

#[test]
fn an_exit_that_cannot_be_recorded_is_reaped_again() {
    let (mut launcher, mut log) = fixture();
    launcher.launch("kodi", &mut log).unwrap();
    let pid = launcher.current_pid().unwrap();
    launcher.platform_mut().simulate_exit(pid);

    log.fail_next_record();
    assert!(launcher.reap(&mut log).is_err());
    assert_eq!(launcher.current(), Some("kodi".to_string()), "still held, to try again");

    launcher.reap(&mut log).unwrap();
    assert_eq!(launcher.current(), None);
    assert_eq!(kinds(&log), vec![kind::APP_LAUNCHED.to_string(), kind::APP_EXITED.to_string()]);
}
