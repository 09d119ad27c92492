use seshd::event::{kind, Event, NewEvent};
use seshd::json::Value;
use seshd::presence::via::{Via, VIA};
use seshd::presence::{Presence, ATTENTION_MS, WINDOW_MS};
use seshd::veto::needed;

const T0: i64 = 1_786_937_604_000;

fn kinds(events: &[NewEvent]) -> Vec<&str> {
    events.iter().map(|e| e.kind.as_str()).collect()
}

fn says_heartbeat(event: &NewEvent) -> bool {
    event.payload.get(VIA) == Some(&Value::Str("heartbeat".to_string()))
}

// --- the tracker's transitions --------------------------------------------

#[test]
fn presence_a_first_beat_announces_an_arrival() {
    let mut presence = Presence::new();
    let event = presence.beat("sam", T0).expect("first beat is an arrival");

    assert_eq!(event.kind, kind::PRESENCE_ARRIVED);
    assert_eq!(event.actors, vec!["sam".to_string()]);
}

#[test]
fn presence_beating_again_inside_the_window_announces_nothing() {
    let mut presence = Presence::new();
    presence.beat("sam", T0).unwrap();

    assert!(presence.beat("sam", T0 + 1_000).is_none());
    assert!(presence.beat("sam", T0 + WINDOW_MS - 1).is_none());
}

#[test]
fn presence_sweeping_inside_the_window_retires_nobody() {
    let mut presence = Presence::new();
    presence.beat("sam", T0).unwrap();

    assert!(presence.sweep(T0 + WINDOW_MS - 1).is_empty());
}

#[test]
fn presence_a_quiet_phone_is_retired_after_the_window() {
    let mut presence = Presence::new();
    presence.beat("sam", T0).unwrap();

    let left = presence.sweep(T0 + WINDOW_MS);
    assert_eq!(kinds(&left), vec![kind::PRESENCE_LEFT]);
    assert_eq!(left[0].actors, vec!["sam".to_string()]);
}

#[test]
fn presence_sweeping_twice_retires_someone_only_once() {
    let mut presence = Presence::new();
    presence.beat("sam", T0).unwrap();

    assert_eq!(presence.sweep(T0 + WINDOW_MS).len(), 1);
    assert!(presence.sweep(T0 + WINDOW_MS + 1).is_empty());
    assert!(presence.sweep(T0 + WINDOW_MS * 5).is_empty());
}

#[test]
fn presence_coming_back_after_being_retired_announces_a_new_arrival() {
    let mut presence = Presence::new();
    presence.beat("sam", T0).unwrap();
    presence.sweep(T0 + WINDOW_MS);

    let back = presence.beat("sam", T0 + WINDOW_MS + 1);
    assert_eq!(back.map(|e| e.kind), Some(kind::PRESENCE_ARRIVED.to_string()));
}

#[test]
fn presence_people_are_tracked_independently() {
    let mut presence = Presence::new();
    presence.beat("sam", T0).unwrap();
    presence.beat("marcus", T0 + WINDOW_MS / 2).unwrap();

    let left = presence.sweep(T0 + WINDOW_MS);
    assert_eq!(left.len(), 1);
    assert_eq!(left[0].actors, vec!["sam".to_string()]);

    assert!(presence.beat("marcus", T0 + WINDOW_MS).is_none());
}

#[test]
fn presence_a_seeded_person_does_not_re_announce_on_their_first_beat() {
    let mut presence = Presence::seeded(&["sam".to_string()], T0);

    assert!(
        presence.beat("sam", T0 + 1_000).is_none(),
        "a restart must not append an arrival for someone who never left"
    );
}

#[test]
fn presence_a_seeded_person_who_never_beats_is_still_retired() {
    let mut presence = Presence::seeded(&["sam".to_string()], T0);

    let left = presence.sweep(T0 + WINDOW_MS);
    assert_eq!(kinds(&left), vec![kind::PRESENCE_LEFT]);
}

#[test]
fn presence_sweeping_an_empty_tracker_is_fine() {
    assert!(Presence::new().sweep(T0).is_empty());
}

#[test]
fn presence_departures_are_returned_in_a_stable_order() {
    let mut presence = Presence::new();
    presence.beat("sam", T0).unwrap();
    presence.beat("marcus", T0).unwrap();
    presence.beat("ali", T0).unwrap();

    let actors: Vec<_> =
        presence.sweep(T0 + WINDOW_MS).into_iter().map(|e| e.actors[0].clone()).collect();
    assert_eq!(actors, vec!["ali", "marcus", "sam"]);
}

// --- the same transitions, with the producer named --------------------------

#[test]
fn every_row_this_tracker_writes_says_it_came_from_a_heartbeat() {
    let mut presence = Presence::new();

    let arrival = presence.beat("sam", T0).expect("first beat is an arrival");
    assert!(says_heartbeat(&arrival));

    let departures = presence.sweep(T0 + WINDOW_MS);
    assert_eq!(kinds(&departures), vec![kind::PRESENCE_LEFT]);
    assert!(says_heartbeat(&departures[0]));
}

#[test]
fn what_this_tracker_writes_reads_back_as_heartbeat() {
    let mut presence = Presence::new();
    let arrival = presence.beat("sam", T0).unwrap();

    let recorded = Event {
        id: 1,
        ts_ms: T0,
        kind: arrival.kind.clone(),
        actors: arrival.actors.clone(),
        subject: arrival.subject.clone(),
        payload: arrival.payload,
    };
    assert_eq!(Via::read(&recorded), Some(Via::Heartbeat));
}

#[test]
fn tests_a_first_beat_announces_an_arrival() {
    let mut presence = Presence::new();
    let event = presence.beat("sam", T0).expect("first beat is an arrival");

    assert_eq!(event.kind, kind::PRESENCE_ARRIVED);
    assert_eq!(event.actors, vec!["sam".to_string()]);
}

#[test]
fn tests_beating_again_inside_the_window_announces_nothing() {
    let mut presence = Presence::new();
    presence.beat("sam", T0).unwrap();

    assert!(presence.beat("sam", T0 + 1_000).is_none());
    assert!(presence.beat("sam", T0 + WINDOW_MS - 1).is_none());
}

#[test]
fn tests_sweeping_inside_the_window_retires_nobody() {
    let mut presence = Presence::new();
    presence.beat("sam", T0).unwrap();

    assert!(presence.sweep(T0 + WINDOW_MS - 1).is_empty());
}

#[test]
fn tests_a_quiet_phone_is_retired_after_the_window() {
    let mut presence = Presence::new();
    presence.beat("sam", T0).unwrap();

    let left = presence.sweep(T0 + WINDOW_MS);
    assert_eq!(kinds(&left), vec![kind::PRESENCE_LEFT]);
    assert_eq!(left[0].actors, vec!["sam".to_string()]);
}

#[test]
fn tests_sweeping_twice_retires_someone_only_once() {
    let mut presence = Presence::new();
    presence.beat("sam", T0).unwrap();

    assert_eq!(presence.sweep(T0 + WINDOW_MS).len(), 1);
    assert!(presence.sweep(T0 + WINDOW_MS + 1).is_empty());
    assert!(presence.sweep(T0 + WINDOW_MS * 5).is_empty());
}

#[test]
fn tests_coming_back_after_being_retired_announces_a_new_arrival() {
    let mut presence = Presence::new();
    presence.beat("sam", T0).unwrap();
    presence.sweep(T0 + WINDOW_MS);

    let back = presence.beat("sam", T0 + WINDOW_MS + 1);
    assert_eq!(back.map(|e| e.kind), Some(kind::PRESENCE_ARRIVED.to_string()));
}

#[test]
fn tests_people_are_tracked_independently() {
    let mut presence = Presence::new();
    presence.beat("sam", T0).unwrap();
    presence.beat("marcus", T0 + WINDOW_MS / 2).unwrap();

    let left = presence.sweep(T0 + WINDOW_MS);
    assert_eq!(left.len(), 1);
    assert_eq!(left[0].actors, vec!["sam".to_string()]);

    assert!(presence.beat("marcus", T0 + WINDOW_MS).is_none());
}

#[test]
fn tests_a_seeded_person_does_not_re_announce_on_their_first_beat() {
    let mut presence = Presence::seeded(&["sam".to_string()], T0);

    assert!(
        presence.beat("sam", T0 + 1_000).is_none(),
        "a restart must not append an arrival for someone who never left"
    );
}

#[test]
fn tests_a_seeded_person_who_never_beats_is_still_retired() {
    let mut presence = Presence::seeded(&["sam".to_string()], T0);

    let left = presence.sweep(T0 + WINDOW_MS);
    assert_eq!(kinds(&left), vec![kind::PRESENCE_LEFT]);
}

#[test]
fn tests_sweeping_an_empty_tracker_is_fine() {
    assert!(Presence::new().sweep(T0).is_empty());
}

#[test]
fn tests_departures_are_returned_in_a_stable_order() {
    let mut presence = Presence::new();
    presence.beat("sam", T0).unwrap();
    presence.beat("marcus", T0).unwrap();
    presence.beat("ali", T0).unwrap();

    let actors: Vec<_> =
        presence.sweep(T0 + WINDOW_MS).into_iter().map(|e| e.actors[0].clone()).collect();
    assert_eq!(actors, vec!["ali", "marcus", "sam"]);
}

// --- attention is not presence -------------------------------------------

#[test]
fn a_locked_screen_ends_attention_and_says_nothing_about_presence() {
    let mut presence = Presence::new();
    presence.beat("sam", T0);

    assert_eq!(presence.attentive(T0), vec!["sam".to_string()]);
    assert_eq!(presence.present(T0), vec!["sam".to_string()]);

    let later = T0 + ATTENTION_MS;
    assert!(presence.attentive(later).is_empty(), "a quiet phone is not paying attention");
    assert_eq!(
        presence.present(later),
        vec!["sam".to_string()],
        "a quiet phone is not evidence its owner left the room"
    );
}

#[test]
fn presence_still_ends_at_the_window() {
    let mut presence = Presence::new();
    presence.beat("sam", T0);

    assert!(presence.present(T0 + WINDOW_MS - 1).len() == 1);
    assert!(presence.present(T0 + WINDOW_MS).is_empty());
}

#[test]
fn the_veto_denominator_follows_presence_not_attention() {
    let mut presence = Presence::new();
    for who in ["sam", "jess", "marcus", "ali", "tate"] {
        presence.beat(who, T0);
    }
    let later = T0 + ATTENTION_MS;
    presence.beat("sam", later);
    presence.beat("jess", later);

    let attentive = presence.attentive(later);
    let present = presence.present(later);

    assert_eq!(attentive, vec!["jess".to_string(), "sam".to_string()]);
    assert_eq!(present.len(), 5, "nobody has left the room");

    assert_eq!(needed(&present), 3, "five in the room is a majority of three");
    assert_eq!(needed(&attentive), 2, "two on their phones would be a majority of two");
    assert_ne!(needed(&present), needed(&attentive), "if these ever agree this test is vacuous");
}

#[test]
fn someone_retired_is_neither_present_nor_attentive() {
    let mut presence = Presence::new();
    presence.beat("sam", T0);
    presence.sweep(T0 + WINDOW_MS);

    assert!(presence.present(T0 + WINDOW_MS).is_empty());
    assert!(presence.attentive(T0 + WINDOW_MS).is_empty());
}

#[test]
fn a_beat_leaves_everyone_else_as_they_were() {
    let mut presence = Presence::new();
    presence.beat("sam", T0).unwrap();
    presence.beat("tate", T0 + 5_000).unwrap();
    assert_eq!(presence.present(T0 + WINDOW_MS + 2), vec!["tate".to_string()]);
}

#[test]
fn who_is_here_is_listed_in_id_order() {
    let mut presence = Presence::new();
    presence.beat("tate", T0).unwrap();
    presence.beat("alex", T0).unwrap();
    presence.beat("sam", T0).unwrap();
    let expected = vec!["alex".to_string(), "sam".to_string(), "tate".to_string()];
    assert_eq!(presence.present(T0 + 1_000), expected);
    assert_eq!(presence.attentive(T0 + 1_000), expected);
}
