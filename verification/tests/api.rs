use seshd::api::events::{EventsQuery, DEFAULT_LIMIT};
use seshd::api::join::{display_name, join_qr_svg, join_url, joined_event, MAX_NAME_LEN};
use seshd::api::music::{
    clamp, queue_uri, queued_event, search_query, veto_tally, veto_target, vetoed_event,
    MusicResponse, QueueRequest, MAX_QUERY_LEN, MAX_TEXT_LEN, MAX_URI_LEN,
};
use seshd::event::{kind, Event, NewEvent};
use seshd::json::Value;
use seshd::people::Person;
use seshd::projections::queue::Queue;

fn person(id: &str, name: &str) -> Person {
    Person {
        id: id.to_string(),
        name: name.to_string(),
        avatar: None,
        joined_ms: 1_786_937_604_000,
        bt_identity: None,
    }
}

fn stored(id: i64, e: NewEvent) -> Event {
    Event {
        id,
        ts_ms: 1_786_937_604_000 + id,
        kind: e.kind,
        actors: e.actors,
        subject: e.subject,
        payload: e.payload,
    }
}

fn request(uri: &str) -> QueueRequest {
    QueueRequest {
        uri: uri.to_string(),
        title: "Song".to_string(),
        artist: "Someone".to_string(),
        duration_ms: 210_000,
    }
}

#[test]
fn a_name_is_trimmed_and_bounded() {
    assert_eq!(display_name("  Sam  "), Some("Sam"));
    assert_eq!(display_name("   "), None, "a blank name is refused");
    assert_eq!(display_name(&"x".repeat(MAX_NAME_LEN)), Some("x".repeat(MAX_NAME_LEN).as_str()));
    assert_eq!(display_name(&"x".repeat(MAX_NAME_LEN + 1)), None, "an over-long name is refused");
    assert_eq!(display_name(&"é".repeat(MAX_NAME_LEN)).map(|n| n.chars().count()), Some(MAX_NAME_LEN));
}

#[test]
fn joining_records_the_person_and_their_name() {
    let e = joined_event(&person("sam", "Sam"));
    assert_eq!(e.kind, kind::PERSON_JOINED);
    assert_eq!(e.actors, vec!["sam".to_string()]);
    assert_eq!(e.subject, None);
    assert_eq!(e.payload, Value::Object(vec![("name".to_string(), Value::Str("Sam".to_string()))]));
}

#[test]
fn a_read_without_a_limit_gets_the_default() {
    assert_eq!(EventsQuery { after: 0, limit: None }.limit_or_default(), DEFAULT_LIMIT);
    assert_eq!(EventsQuery { after: 3, limit: Some(2) }.limit_or_default(), 2);
    assert_eq!(EventsQuery { after: 3, limit: Some(-1) }.limit_or_default(), -1);
}

#[test]
fn an_empty_search_is_rejected() {
    assert_eq!(search_query("   "), None);
    assert_eq!(search_query(" dirtbag "), Some("dirtbag"));
    assert_eq!(search_query(&"q".repeat(MAX_QUERY_LEN + 1)), None);
}

#[test]
fn an_empty_or_absurd_uri_is_rejected() {
    assert_eq!(queue_uri(""), None);
    assert_eq!(queue_uri(&"x".repeat(MAX_URI_LEN + 1)), None);
    assert_eq!(queue_uri(" spotify:track:a "), Some("spotify:track:a"));
}

#[test]
fn metadata_is_clamped_before_it_is_recorded() {
    assert_eq!(clamp("short"), "short");
    assert_eq!(clamp(&"t".repeat(MAX_TEXT_LEN + 50)).chars().count(), MAX_TEXT_LEN);
    let mut long = request("spotify:track:a");
    long.title = "t".repeat(MAX_TEXT_LEN + 1);
    long.duration_ms = -5;
    let e = queued_event("sam", "spotify:track:a", &long);
    assert_eq!(e.kind, kind::MUSIC_QUEUED);
    assert_eq!(e.actors, vec!["sam".to_string()]);
    assert_eq!(e.subject.as_deref(), Some("spotify:track:a"));
    assert_eq!(e.payload.get("title"), Some(&Value::Str("t".repeat(MAX_TEXT_LEN))));
    assert_eq!(e.payload.get("artist"), Some(&Value::Str("Someone".to_string())));
    assert_eq!(e.payload.get("duration_ms"), Some(&Value::Int(0)), "a negative length is unknown");
}

#[test]
fn a_queued_track_appears_with_who_added_it() {
    let q = Queue::rebuild(&[stored(1, queued_event("sam", "spotify:track:a", &request("spotify:track:a")))]);
    let response = MusicResponse::of(&q, vec!["sam".to_string()], "ok");
    assert_eq!(response.pending.len(), 1);
    assert_eq!(response.pending[0].added_by.as_deref(), Some("sam"));
    assert_eq!(response.pending[0].title, "Song");
    assert_eq!(response.now_playing, None);
    assert_eq!(response.needed, 2);
    assert_eq!(response.player, "ok");
}

#[test]
fn a_veto_is_recorded_and_reports_the_tally() {
    let mut log = vec![
        stored(1, queued_event("sam", "spotify:track:a", &request("spotify:track:a"))),
        stored(2, queued_event("ali", "spotify:track:a", &request("spotify:track:a"))),
    ];
    let present = vec!["ali".to_string(), "marcus".to_string(), "sam".to_string()];
    let q = Queue::rebuild(&log);
    let uri = veto_target(&q, 2).expect("entry 2 is queued");
    assert_eq!(uri, "spotify:track:a");
    assert_eq!(veto_target(&q, 9), None, "vetoing a track that is not queued is not found");

    log.push(stored(3, vetoed_event("marcus", &uri, 2)));
    let q = Queue::rebuild(&log);
    let tally = veto_tally(&q, 2, &present);
    assert_eq!((tally.votes, tally.needed, tally.carried), (1, 2, false));
    assert_eq!(veto_tally(&q, 1, &present).votes, 0, "the other copy is untouched");

    log.push(stored(4, vetoed_event("marcus", &uri, 2)));
    let q = Queue::rebuild(&log);
    assert_eq!(veto_tally(&q, 2, &present).votes, 1, "voting twice does not double a vote");

    log.push(stored(5, vetoed_event("sam", &uri, 2)));
    let q = Queue::rebuild(&log);
    let tally = veto_tally(&q, 2, &present);
    assert_eq!((tally.votes, tally.needed, tally.carried), (2, 2, true));
}

#[test]
fn a_vetoed_row_names_the_entry() {
    let e = vetoed_event("sam", "spotify:track:a", 7);
    assert_eq!(e.kind, kind::MUSIC_VETOED);
    assert_eq!(e.actors, vec!["sam".to_string()]);
    assert_eq!(e.payload, Value::Object(vec![("entry".to_string(), Value::Int(7))]));
}

#[test]
fn the_join_link_carries_the_code() {
    assert_eq!(join_url("http://pi.test:7373", "abc123"), "http://pi.test:7373/join?c=abc123");
}

#[test]
fn the_join_qr_is_an_svg_of_the_link() {
    let svg = join_qr_svg("http://pi.test:7373", "abc123").unwrap();
    assert!(svg.contains("<svg"), "got {svg}");
    assert_ne!(svg, join_url("http://pi.test:7373", "abc123"));
    let other = join_qr_svg("http://pi.test:7373", "zzz999").unwrap();
    assert_ne!(svg, other, "a different code draws a different QR");
}

#[test]
fn text_too_long_for_a_qr_is_refused() {
    assert!(join_qr_svg("http://pi.test:7373", &"x".repeat(8000)).is_err());
}
