use seshd::event::{kind, Event};
use seshd::json::Value;
use seshd::projection::Projection;
use seshd::projections::roster::Roster;

fn ev(id: i64, kind: &str, actor: &str) -> Event {
    Event {
        id,
        ts_ms: 1_700_000_000_000 + id,
        kind: kind.to_string(),
        actors: vec![actor.to_string()],
        subject: None,
        payload: Value::Object(Vec::new()),
    }
}

#[test]
fn empty_roster_has_nobody() {
    assert!(Roster::default().present().is_empty());
}

#[test]
fn arriving_adds_a_person() {
    let r = Roster::rebuild(&[ev(1, kind::PRESENCE_ARRIVED, "tate")]);
    assert_eq!(r.present(), vec!["tate".to_string()]);
}

#[test]
fn leaving_removes_a_person() {
    let r = Roster::rebuild(&[
        ev(1, kind::PRESENCE_ARRIVED, "tate"),
        ev(2, kind::PRESENCE_ARRIVED, "sam"),
        ev(3, kind::PRESENCE_LEFT, "tate"),
    ]);
    assert_eq!(r.present(), vec!["sam".to_string()]);
}

#[test]
fn arriving_twice_does_not_duplicate() {
    let r = Roster::rebuild(&[
        ev(1, kind::PRESENCE_ARRIVED, "tate"),
        ev(2, kind::PRESENCE_ARRIVED, "tate"),
    ]);
    assert_eq!(r.present(), vec!["tate".to_string()]);
}

#[test]
fn roster_unrelated_events_are_ignored() {
    let r = Roster::rebuild(&[
        ev(1, kind::PRESENCE_ARRIVED, "tate"),
        ev(2, kind::APP_LAUNCHED, "tate"),
        ev(3, "match.result", "tate"),
    ]);
    assert_eq!(r.present(), vec!["tate".to_string()]);
}

#[test]
fn roster_incremental_apply_matches_a_full_rebuild() {
    let events = vec![
        ev(1, kind::PRESENCE_ARRIVED, "tate"),
        ev(2, kind::PRESENCE_ARRIVED, "sam"),
        ev(3, kind::PRESENCE_LEFT, "tate"),
        ev(4, kind::PRESENCE_ARRIVED, "marcus"),
    ];

    let mut incremental = Roster::default();
    for e in &events {
        incremental.apply(e);
    }

    assert_eq!(incremental.present(), Roster::rebuild(&events).present());
}

#[test]
fn the_roster_lists_people_alphabetically() {
    let r = Roster::rebuild(&[
        ev(1, kind::PRESENCE_ARRIVED, "tate"),
        ev(2, kind::PRESENCE_ARRIVED, "ali"),
        ev(3, kind::PRESENCE_ARRIVED, "marcus"),
    ]);
    assert_eq!(r.present(), vec!["ali".to_string(), "marcus".to_string(), "tate".to_string()]);
}
