use seshd::event::{kind, Event};
use seshd::json::Value;
use seshd::projection::Projection;
use seshd::projections::queue::Queue;

fn object(members: Vec<(&str, Value)>) -> Value {
    Value::Object(members.into_iter().map(|(k, v)| (k.to_string(), v)).collect())
}

/// Build an event the way the store would have stored it.
fn ev(id: i64, kind: &str, subject: Option<&str>, payload: Value) -> Event {
    Event {
        id,
        ts_ms: 1_786_937_604_000 + id,
        kind: kind.to_string(),
        actors: Vec::new(),
        subject: subject.map(str::to_string),
        payload,
    }
}

fn by(mut event: Event, actor: &str) -> Event {
    event.actors.push(actor.to_string());
    event
}

fn queued(id: i64, uri: &str, title: &str, actor: &str) -> Event {
    by(
        ev(
            id,
            kind::MUSIC_QUEUED,
            Some(uri),
            object(vec![
                ("title", Value::Str(title.to_string())),
                ("artist", Value::Str("Someone".to_string())),
                ("duration_ms", Value::Int(210_000)),
            ]),
        ),
        actor,
    )
}

fn started(id: i64, uri: &str, entry: i64) -> Event {
    ev(id, kind::MUSIC_STARTED, Some(uri), object(vec![("entry", Value::Int(entry))]))
}

fn skipped(id: i64, uri: &str, entry: i64, why: &str) -> Event {
    ev(
        id,
        kind::MUSIC_SKIPPED,
        Some(uri),
        object(vec![("entry", Value::Int(entry)), ("why", Value::Str(why.to_string()))]),
    )
}

fn vetoed(id: i64, uri: &str, entry: i64, actor: &str) -> Event {
    by(ev(id, kind::MUSIC_VETOED, Some(uri), object(vec![("entry", Value::Int(entry))])), actor)
}

fn uris(queue: &Queue) -> Vec<&str> {
    queue.pending().iter().map(|e| e.uri.as_str()).collect()
}

#[test]
fn an_empty_log_is_an_empty_queue() {
    let queue = Queue::rebuild(&[]);
    assert!(queue.pending().is_empty());
    assert_eq!(queue.now_playing(), None);
    assert_eq!(queue.next_up(), None);
}

#[test]
fn queueing_keeps_insertion_order() {
    let queue = Queue::rebuild(&[
        queued(1, "spotify:track:a", "A", "sam"),
        queued(2, "spotify:track:b", "B", "marcus"),
        queued(3, "spotify:track:c", "C", "sam"),
    ]);
    assert_eq!(uris(&queue), vec!["spotify:track:a", "spotify:track:b", "spotify:track:c"]);
    assert_eq!(queue.next_up().unwrap().uri, "spotify:track:a");
}

#[test]
fn an_entry_carries_its_metadata_and_who_added_it() {
    let queue = Queue::rebuild(&[queued(1, "spotify:track:a", "Song", "sam")]);
    let entry = &queue.pending()[0];

    assert_eq!(entry.entry, 1, "the entry id is the queued event's id");
    assert_eq!(entry.title, "Song");
    assert_eq!(entry.artist, "Someone");
    assert_eq!(entry.duration_ms, 210_000);
    assert_eq!(entry.added_by.as_deref(), Some("sam"));
    assert!(entry.vetoes.is_empty());
}

#[test]
fn the_same_track_queued_twice_is_two_independent_entries() {
    let queue = Queue::rebuild(&[
        queued(1, "spotify:track:a", "A", "sam"),
        queued(2, "spotify:track:a", "A", "marcus"),
        vetoed(3, "spotify:track:a", 1, "ali"),
    ]);

    assert_eq!(queue.pending().len(), 2);
    assert_eq!(queue.find(1).unwrap().vetoes.len(), 1);
    assert!(queue.find(2).unwrap().vetoes.is_empty(), "vetoing one entry must not veto the other");
}

#[test]
fn vetoing_the_second_copy_of_a_song_leaves_the_first_alone() {
    let queue = Queue::rebuild(&[
        queued(1, "spotify:track:a", "A", "sam"),
        queued(2, "spotify:track:a", "A", "marcus"),
        vetoed(3, "spotify:track:a", 2, "ali"),
    ]);

    assert!(queue.find(1).unwrap().vetoes.is_empty(), "the first copy must be untouched");
    assert_eq!(queue.find(2).unwrap().vetoes.len(), 1);
}

#[test]
fn starting_a_track_from_the_middle_leaves_the_others_in_order() {
    let queue = Queue::rebuild(&[
        queued(1, "spotify:track:a", "A", "sam"),
        queued(2, "spotify:track:b", "B", "sam"),
        queued(3, "spotify:track:c", "C", "sam"),
        started(4, "spotify:track:b", 2),
    ]);

    assert_eq!(queue.now_playing().unwrap().uri, "spotify:track:b");
    assert_eq!(uris(&queue), vec!["spotify:track:a", "spotify:track:c"]);
}

#[test]
fn skipping_a_track_from_the_middle_leaves_the_others_in_order() {
    let queue = Queue::rebuild(&[
        queued(1, "spotify:track:a", "A", "sam"),
        queued(2, "spotify:track:b", "B", "sam"),
        queued(3, "spotify:track:c", "C", "sam"),
        skipped(4, "spotify:track:b", 2, "vetoed"),
    ]);

    assert_eq!(uris(&queue), vec!["spotify:track:a", "spotify:track:c"]);
}

#[test]
fn a_person_voting_twice_counts_once() {
    let queue = Queue::rebuild(&[
        queued(1, "spotify:track:a", "A", "sam"),
        vetoed(2, "spotify:track:a", 1, "marcus"),
        vetoed(3, "spotify:track:a", 1, "marcus"),
    ]);
    assert_eq!(queue.find(1).unwrap().vetoes.len(), 1);
}

#[test]
fn starting_a_track_moves_it_out_of_pending() {
    let queue = Queue::rebuild(&[
        queued(1, "spotify:track:a", "A", "sam"),
        queued(2, "spotify:track:b", "B", "sam"),
        started(3, "spotify:track:a", 1),
    ]);

    assert_eq!(queue.now_playing().unwrap().entry, 1);
    assert_eq!(uris(&queue), vec!["spotify:track:b"]);
}

#[test]
fn a_veto_carries_over_when_the_track_starts() {
    let queue = Queue::rebuild(&[
        queued(1, "spotify:track:a", "A", "sam"),
        vetoed(2, "spotify:track:a", 1, "marcus"),
        started(3, "spotify:track:a", 1),
    ]);
    assert_eq!(queue.now_playing().unwrap().vetoes.len(), 1);
}

#[test]
fn the_playing_track_can_be_vetoed() {
    let queue = Queue::rebuild(&[
        queued(1, "spotify:track:a", "A", "sam"),
        started(2, "spotify:track:a", 1),
        vetoed(3, "spotify:track:a", 1, "marcus"),
    ]);
    assert_eq!(queue.now_playing().unwrap().vetoes.len(), 1);
}

#[test]
fn skipping_the_playing_track_clears_it() {
    let queue = Queue::rebuild(&[
        queued(1, "spotify:track:a", "A", "sam"),
        started(2, "spotify:track:a", 1),
        skipped(3, "spotify:track:a", 1, "finished"),
    ]);
    assert_eq!(queue.now_playing(), None);
    assert!(queue.pending().is_empty());
}

#[test]
fn skipping_a_waiting_track_drops_it_and_leaves_the_playing_one() {
    let queue = Queue::rebuild(&[
        queued(1, "spotify:track:a", "A", "sam"),
        queued(2, "spotify:track:b", "B", "sam"),
        started(3, "spotify:track:a", 1),
        skipped(4, "spotify:track:b", 2, "vetoed"),
    ]);

    assert_eq!(queue.now_playing().unwrap().entry, 1);
    assert!(queue.pending().is_empty());
}

#[test]
fn a_track_started_outside_sesh_still_becomes_now_playing() {
    let queue = Queue::rebuild(&[ev(
        1,
        kind::MUSIC_STARTED,
        Some("spotify:track:z"),
        object(vec![
            ("title", Value::Str("Elsewhere".to_string())),
            ("artist", Value::Str("Nobody".to_string())),
        ]),
    )]);

    let playing = queue.now_playing().expect("must reflect reality");
    assert_eq!(playing.uri, "spotify:track:z");
    assert_eq!(playing.title, "Elsewhere");
    assert_eq!(playing.added_by, None, "nobody here queued it");
}

#[test]
fn a_veto_for_an_entry_that_no_longer_exists_is_ignored() {
    let queue = Queue::rebuild(&[
        queued(1, "spotify:track:a", "A", "sam"),
        skipped(2, "spotify:track:a", 1, "vetoed"),
        vetoed(3, "spotify:track:a", 1, "marcus"),
    ]);
    assert!(queue.pending().is_empty());
    assert_eq!(queue.now_playing(), None);
}

#[test]
fn a_veto_with_no_voter_is_ignored() {
    let queue = Queue::rebuild(&[
        queued(1, "spotify:track:a", "A", "sam"),
        ev(2, kind::MUSIC_VETOED, Some("spotify:track:a"), object(vec![("entry", Value::Int(1))])),
    ]);
    assert!(queue.find(1).unwrap().vetoes.is_empty());
}

#[test]
fn a_queued_event_with_no_track_is_ignored() {
    let queue = Queue::rebuild(&[ev(1, kind::MUSIC_QUEUED, None, object(vec![]))]);
    assert!(queue.pending().is_empty());
}

#[test]
fn queue_unrelated_events_are_ignored() {
    let queue = Queue::rebuild(&[
        ev(1, kind::APP_LAUNCHED, Some("kodi"), object(vec![])),
        queued(2, "spotify:track:a", "A", "sam"),
        ev(3, kind::PRESENCE_ARRIVED, None, object(vec![])),
    ]);
    assert_eq!(queue.pending().len(), 1);
}

#[test]
fn missing_metadata_degrades_rather_than_failing() {
    let queue =
        Queue::rebuild(&[ev(1, kind::MUSIC_QUEUED, Some("spotify:track:a"), object(vec![]))]);
    let entry = &queue.pending()[0];
    assert_eq!(entry.title, "");
    assert_eq!(entry.duration_ms, 0);
}

#[test]
fn queue_incremental_apply_matches_a_full_rebuild() {
    let events = vec![
        queued(1, "spotify:track:a", "A", "sam"),
        queued(2, "spotify:track:b", "B", "marcus"),
        vetoed(3, "spotify:track:b", 2, "sam"),
        started(4, "spotify:track:a", 1),
        skipped(5, "spotify:track:a", 1, "finished"),
        started(6, "spotify:track:b", 2),
    ];

    let mut incremental = Queue::default();
    for event in &events {
        incremental.apply(event);
    }

    assert_eq!(incremental.now_playing().unwrap().entry, 2);
    assert!(incremental.pending().is_empty());
    assert_eq!(incremental, Queue::rebuild(&events));
}

#[test]
fn a_duplicated_queue_is_equal_to_the_queue_it_came_from() {
    let queue = Queue::rebuild(&[
        queued(1, "spotify:track:a", "A", "sam"),
        vetoed(2, "spotify:track:a", 1, "marcus"),
        queued(3, "spotify:track:b", "B", "sam"),
        started(4, "spotify:track:a", 1),
    ]);
    assert_eq!(queue.duplicate(), queue);
}
