use seshd::event::{kind, Event, NewEvent};
use seshd::json::Value;
use seshd::record::MemoryLog;
use seshd::reconcile::{close_unfinished_launches, unfinished_launches, EXIT_OBSERVED, REASON};

fn ev(id: i64, kind: &str, subject: Option<&str>) -> Event {
    Event {
        id,
        ts_ms: 1_700_000_000_000 + id,
        kind: kind.to_string(),
        actors: Vec::new(),
        subject: subject.map(Into::into),
        payload: Value::Object(Vec::new()),
    }
}

fn launched(id: i64, subject: &str) -> Event {
    ev(id, kind::APP_LAUNCHED, Some(subject))
}

fn exited(id: i64, subject: &str) -> Event {
    ev(id, kind::APP_EXITED, Some(subject))
}

fn subjects(events: &[NewEvent]) -> Vec<String> {
    events.iter().map(|e| e.subject.clone().unwrap_or_default()).collect()
}

#[test]
fn an_empty_log_needs_nothing() {
    assert!(unfinished_launches(&[]).is_empty());
}

#[test]
fn a_closed_launch_needs_nothing() {
    let log = [launched(1, "kodi"), exited(2, "kodi")];
    assert!(unfinished_launches(&log).is_empty());
}

#[test]
fn an_open_launch_is_closed() {
    let log = [launched(1, "retroarch")];
    let out = unfinished_launches(&log);

    assert_eq!(out.len(), 1);
    assert_eq!(out[0].kind, kind::APP_EXITED);
    assert_eq!(out[0].subject.as_deref(), Some("retroarch"));
}

#[test]
fn a_closing_event_admits_it_did_not_see_the_exit() {
    let log = [launched(1, "retroarch")];
    let out = unfinished_launches(&log);

    assert_eq!(out[0].payload.get(EXIT_OBSERVED), Some(&Value::Bool(false)));
    assert_eq!(out[0].payload.get("last_alive_ms"), Some(&Value::Int(1_700_000_000_001)));
    assert!(matches!(out[0].payload.get("reason"), Some(Value::Str(_))));
}

#[test]
fn last_alive_is_the_newest_event_not_the_launch() {
    let log = [
        launched(1, "kodi"),
        ev(2, kind::PRESENCE_ARRIVED, None),
        ev(3, "match.result", Some("smash")),
    ];
    let out = unfinished_launches(&log);

    assert_eq!(out.len(), 1);
    assert_eq!(out[0].payload.get("last_alive_ms"), Some(&Value::Int(1_700_000_000_003)));
}

#[test]
fn only_the_still_open_launch_is_closed() {
    let log = [launched(1, "kodi"), exited(2, "kodi"), launched(3, "retroarch")];
    assert_eq!(subjects(&unfinished_launches(&log)), vec!["retroarch"]);
}

#[test]
fn relaunching_the_same_app_leaves_one_open_launch() {
    let log = [launched(1, "kodi"), launched(2, "kodi")];
    assert_eq!(subjects(&unfinished_launches(&log)), vec!["kodi"]);
}

#[test]
fn several_open_launches_are_closed_in_log_order() {
    let log = [
        launched(1, "kodi"),
        launched(2, "retroarch"),
        launched(3, "moonlight"),
        exited(4, "retroarch"),
    ];
    assert_eq!(
        subjects(&unfinished_launches(&log)),
        vec!["kodi", "moonlight"],
        "output must be deterministic, ordered by when each launch opened"
    );
}

#[test]
fn unrelated_kinds_are_ignored() {
    let log = [
        ev(1, kind::PRESENCE_ARRIVED, Some("tate")),
        ev(2, "match.result", Some("smash")),
        ev(3, "music.queued", Some("track-1")),
    ];
    assert!(unfinished_launches(&log).is_empty());
}

#[test]
fn launches_without_a_subject_name_no_app_to_close() {
    let log = [ev(1, kind::APP_LAUNCHED, None)];
    assert!(unfinished_launches(&log).is_empty());
}

#[test]
fn the_reason_names_the_restart() {
    let out = unfinished_launches(&[launched(1, "kodi")]);
    assert_eq!(out[0].payload.get("reason"), Some(&Value::Str(REASON.to_string())));
}

#[test]
fn closing_what_was_closed_leaves_nothing_open() {
    let mut log = vec![launched(1, "kodi"), launched(2, "retroarch")];
    let closing = unfinished_launches(&log);
    for (i, c) in closing.into_iter().enumerate() {
        log.push(c.into_event(10 + i as i64, 1_700_000_000_100));
    }
    assert!(unfinished_launches(&log).is_empty());
}

fn stored(log: MemoryLog, first_id: i64) -> Vec<Event> {
    log.into_events()
        .into_iter()
        .enumerate()
        .map(|(i, e)| e.into_event(first_id + i as i64, 1_700_000_000_100 + i as i64))
        .collect()
}

#[test]
fn closing_goes_through_the_write_path_and_is_visible() {
    let history = [launched(1, "kodi")];
    let mut log = MemoryLog::new();

    let closed = close_unfinished_launches(&history, &mut log).unwrap();
    assert_eq!(closed, vec!["kodi".to_string()]);

    assert_eq!(log.events().len(), 1);
    assert_eq!(log.events()[0].kind, kind::APP_EXITED);
    assert_eq!(log.events()[0].subject.as_deref(), Some("kodi"));
    assert_eq!(log.events()[0].payload.get(EXIT_OBSERVED), Some(&Value::Bool(false)));
}

#[test]
fn closing_twice_appends_nothing_the_second_time() {
    let mut log = MemoryLog::new();
    let mut history = vec![launched(1, "kodi")];
    close_unfinished_launches(&history, &mut log).unwrap();
    let mut closing = stored(log, 2);
    history.append(&mut closing);

    let mut again = MemoryLog::new();
    let closed = close_unfinished_launches(&history, &mut again).unwrap();
    assert!(closed.is_empty());
    assert!(again.events().is_empty(), "reconciliation must be idempotent");
}

#[test]
fn a_consistent_log_is_left_alone() {
    let history = [launched(1, "kodi"), exited(2, "kodi")];
    let mut log = MemoryLog::new();
    assert!(close_unfinished_launches(&history, &mut log).unwrap().is_empty());
    assert!(log.events().is_empty());
}

#[test]
fn a_refused_append_stops_closing_and_says_so() {
    let history = [launched(1, "kodi"), launched(2, "retroarch")];
    let mut log = MemoryLog::new();
    log.fail_next_record();
    assert!(close_unfinished_launches(&history, &mut log).is_err());
    assert!(log.events().is_empty());
}
