use seshd::conductor::{
    poll_after, ConductorState, Handover, Status, VetoStep, POLL_IDLE_MS, POLL_PLAYING_MS,
    SKIP_BACKOFF_TICKS,
};
use seshd::event::{kind, Event};
use seshd::json::Value;
use seshd::player::{Playback, Track};
use seshd::projections::queue::Queue;

#[test]
fn a_status_reports_transitions_rather_than_state() {
    let mut status = Status::new();
    assert!(!status.is_online(), "unknown reads as offline");

    assert!(status.set(true), "offline -> online is a change");
    assert!(!status.set(true), "online -> online is not");
    assert!(status.is_online());

    assert!(status.set(false), "online -> offline is a change");
    assert!(!status.set(false), "offline -> offline is not");
    assert_eq!(status.label(), "offline");
}

fn object(members: Vec<(&str, Value)>) -> Value {
    Value::Object(members.into_iter().map(|(k, v)| (k.to_string(), v)).collect())
}

fn ev(id: i64, kind: &str, subject: Option<&str>, actors: &[&str], payload: Value) -> Event {
    Event {
        id,
        ts_ms: 1_786_937_604_000 + id,
        kind: kind.to_string(),
        actors: actors.iter().map(|a| a.to_string()).collect(),
        subject: subject.map(str::to_string),
        payload,
    }
}

fn queued(id: i64, uri: &str) -> Event {
    ev(
        id,
        kind::MUSIC_QUEUED,
        Some(uri),
        &["sam"],
        object(vec![("title", Value::Str("A".into())), ("duration_ms", Value::Int(210_000))]),
    )
}

fn playing(uri: &str, progress_ms: i64, is_playing: bool) -> Playback {
    Playback {
        track: Track {
            uri: uri.into(),
            title: "A".into(),
            artist: "Someone".into(),
            duration_ms: 210_000,
        },
        progress_ms,
        is_playing,
        device: None,
    }
}

#[test]
fn an_idle_speaker_finishes_what_the_log_thinks_is_playing() {
    let queue = Queue::rebuild(&[
        queued(1, "spotify:track:a"),
        ev(2, kind::MUSIC_STARTED, Some("spotify:track:a"), &[], object(vec![("entry", Value::Int(1))])),
    ]);
    let mut state = ConductorState::new();
    state.last_progress_ms = 50_000;
    let rows = state.reconcile(&queue, None);
    assert_eq!(rows.len(), 1);
    assert_eq!(rows[0].kind, kind::MUSIC_SKIPPED);
    assert_eq!(rows[0].payload.get("why"), Some(&Value::Str("finished".into())));
    assert_eq!(state.last_progress_ms, 0);
}

#[test]
fn a_new_track_on_the_speaker_is_claimed_and_started() {
    let queue = Queue::rebuild(&[queued(1, "spotify:track:a"), queued(2, "spotify:track:b")]);
    let mut state = ConductorState::new();
    state.handed_over(2);
    let rows = state.reconcile(&queue, Some(&playing("spotify:track:b", 1_000, true)));
    assert_eq!(rows.len(), 1);
    assert_eq!(rows[0].kind, kind::MUSIC_STARTED);
    assert_eq!(rows[0].payload.get("entry"), Some(&Value::Int(2)));
    assert_eq!(state.pushed, None, "the handed-over entry has been claimed");
    assert_eq!(state.last_progress_ms, 1_000);
}

#[test]
fn a_track_nobody_queued_starts_with_no_entry() {
    let queue = Queue::rebuild(&[]);
    let mut state = ConductorState::new();
    let rows = state.reconcile(&queue, Some(&playing("spotify:track:z", 0, true)));
    assert_eq!(rows.len(), 1);
    assert_eq!(rows[0].payload.get("entry"), Some(&Value::Null));
}

#[test]
fn the_same_track_still_playing_records_nothing() {
    let queue = Queue::rebuild(&[
        queued(1, "spotify:track:a"),
        ev(2, kind::MUSIC_STARTED, Some("spotify:track:a"), &[], object(vec![("entry", Value::Int(1))])),
    ]);
    let mut state = ConductorState::new();
    let rows = state.reconcile(&queue, Some(&playing("spotify:track:a", 30_000, true)));
    assert!(rows.is_empty());
}

#[test]
fn a_vetoed_track_is_skipped_and_a_refused_skip_backs_off() {
    let queue = Queue::rebuild(&[
        queued(1, "spotify:track:a"),
        ev(2, kind::MUSIC_STARTED, Some("spotify:track:a"), &[], object(vec![("entry", Value::Int(1))])),
        ev(3, kind::MUSIC_VETOED, Some("spotify:track:a"), &["sam"], object(vec![("entry", Value::Int(1))])),
        ev(4, kind::MUSIC_VETOED, Some("spotify:track:a"), &["ali"], object(vec![("entry", Value::Int(1))])),
    ]);
    let present = vec!["ali".to_string(), "sam".to_string()];
    let mut state = ConductorState::new();
    match state.playing_veto(&queue, &present) {
        VetoStep::Skip { entry, uri } => {
            assert_eq!(entry, 1);
            assert_eq!(uri, "spotify:track:a");
        }
        other => panic!("expected a skip, got {other:?}"),
    }
    assert!(state.skip_result(1, "spotify:track:a", false).is_none());
    assert_eq!(state.skip_backoff, SKIP_BACKOFF_TICKS);
    for _ in 0..SKIP_BACKOFF_TICKS {
        assert!(matches!(state.playing_veto(&queue, &present), VetoStep::SitOut));
    }
    assert!(matches!(state.playing_veto(&queue, &present), VetoStep::Skip { .. }));
    let row = state.skip_result(1, "spotify:track:a", true).unwrap();
    assert_eq!(row.payload.get("why"), Some(&Value::Str("vetoed".into())));
}

#[test]
fn a_committed_track_is_not_dropped_for_a_veto() {
    let queue = Queue::rebuild(&[
        queued(1, "spotify:track:a"),
        queued(2, "spotify:track:b"),
        ev(3, kind::MUSIC_VETOED, Some("spotify:track:a"), &["sam"], object(vec![("entry", Value::Int(1))])),
        ev(4, kind::MUSIC_VETOED, Some("spotify:track:a"), &["ali"], object(vec![("entry", Value::Int(1))])),
        ev(5, kind::MUSIC_VETOED, Some("spotify:track:b"), &["sam"], object(vec![("entry", Value::Int(2))])),
        ev(6, kind::MUSIC_VETOED, Some("spotify:track:b"), &["ali"], object(vec![("entry", Value::Int(2))])),
    ]);
    let present = vec!["ali".to_string(), "sam".to_string()];
    let mut state = ConductorState::new();
    state.handed_over(1);
    let rows = state.pending_vetoes(&queue, &present);
    assert_eq!(rows.len(), 1);
    assert_eq!(rows[0].subject.as_deref(), Some("spotify:track:b"));
}

#[test]
fn the_next_track_is_played_into_silence_and_pushed_near_the_end() {
    let queue = Queue::rebuild(&[queued(1, "spotify:track:a")]);
    let mut state = ConductorState::new();
    assert!(matches!(state.hand_over(&queue, None), Handover::Play { entry: 1, .. }));
    assert!(matches!(
        state.hand_over(&queue, Some(&playing("spotify:track:z", 100_000, true))),
        Handover::Nothing
    ));
    assert!(matches!(
        state.hand_over(&queue, Some(&playing("spotify:track:z", 206_000, true))),
        Handover::Enqueue { entry: 1, .. }
    ));
    state.handed_over(1);
    assert!(matches!(
        state.hand_over(&queue, Some(&playing("spotify:track:z", 206_000, true))),
        Handover::Nothing
    ));
    assert!(matches!(state.hand_over(&Queue::rebuild(&[]), None), Handover::Nothing));
}

#[test]
fn polling_is_quick_while_playing_and_slow_otherwise() {
    assert_eq!(poll_after(Some(&playing("a", 0, true))), POLL_PLAYING_MS);
    assert_eq!(poll_after(Some(&playing("a", 0, false))), POLL_IDLE_MS);
    assert_eq!(poll_after(None), POLL_IDLE_MS);
}
