use seshd::json::Value;
use seshd::player::auth::Access;
use seshd::player::spotify::{
    answer, backoff_seconds, check_config, device_id_in, exhausted, parse_u64, play_body,
    playback_from_json, track_from_json, tracks_from_search, transfer_body, Answer, SpotifyConfig,
    Tokens, MAX_ATTEMPTS, MAX_RETRY_AFTER_S,
};

fn object(members: Vec<(&str, Value)>) -> Value {
    Value::Object(members.into_iter().map(|(k, v)| (k.to_string(), v)).collect())
}

fn s(v: &str) -> Value {
    Value::Str(v.to_string())
}

fn artist(name: &str) -> Value {
    object(vec![("name", s(name))])
}

#[test]
fn a_full_track_maps_across() {
    let track = track_from_json(&object(vec![
        ("uri", s("spotify:track:a")),
        ("name", s("Teenage Dirtbag")),
        ("artists", Value::Array(vec![artist("Wheatus")])),
        ("duration_ms", Value::Int(235_000)),
    ]))
    .unwrap();

    assert_eq!(track.uri, "spotify:track:a");
    assert_eq!(track.title, "Teenage Dirtbag");
    assert_eq!(track.artist, "Wheatus");
    assert_eq!(track.duration_ms, 235_000);
}

#[test]
fn several_artists_are_joined() {
    let track = track_from_json(&object(vec![
        ("uri", s("spotify:track:a")),
        ("artists", Value::Array(vec![artist("Wheatus"), artist("Someone Else")])),
    ]))
    .unwrap();
    assert_eq!(track.artist, "Wheatus, Someone Else");
}

#[test]
fn missing_metadata_degrades_rather_than_dropping_the_track() {
    let track = track_from_json(&object(vec![("uri", s("spotify:track:a"))])).unwrap();
    assert_eq!(track.title, "");
    assert_eq!(track.artist, "");
    assert_eq!(track.duration_ms, 0);
}

#[test]
fn a_track_with_no_uri_is_dropped() {
    assert_eq!(track_from_json(&object(vec![("name", s("Nameless"))])), None);
    assert_eq!(track_from_json(&Value::Null), None);
}

#[test]
fn playing_state_maps_across() {
    let playback = playback_from_json(&object(vec![
        ("is_playing", Value::Bool(true)),
        ("progress_ms", Value::Int(42_000)),
        ("device", object(vec![("name", s("SESH"))])),
        (
            "item",
            object(vec![
                ("uri", s("spotify:track:a")),
                ("name", s("A")),
                ("duration_ms", Value::Int(235_000)),
            ]),
        ),
    ]))
    .unwrap();

    assert!(playback.is_playing);
    assert_eq!(playback.progress_ms, 42_000);
    assert_eq!(playback.device.as_deref(), Some("SESH"));
    assert_eq!(playback.remaining_ms(), 193_000);
}

#[test]
fn paused_state_maps_across() {
    let playback = playback_from_json(&object(vec![
        ("is_playing", Value::Bool(false)),
        ("progress_ms", Value::Int(1_000)),
        ("item", object(vec![("uri", s("spotify:track:a"))])),
    ]))
    .unwrap();

    assert!(!playback.is_playing);
    assert_eq!(playback.device, None);
}

#[test]
fn a_body_with_no_item_is_not_playback() {
    assert_eq!(playback_from_json(&object(vec![("is_playing", Value::Bool(false))])), None);
    assert_eq!(
        playback_from_json(&object(vec![("is_playing", Value::Bool(true)), ("item", Value::Null)])),
        None
    );
}

fn config(id: &str, secret: &str) -> SpotifyConfig {
    SpotifyConfig {
        client_id: id.to_string(),
        client_secret: secret.to_string(),
        device_name: "SESH".to_string(),
    }
}

#[test]
fn empty_credentials_are_rejected_early() {
    let error = check_config(config("", "")).unwrap_err();
    assert!(error.contains("client_id"), "got {error}");
}

#[test]
fn set_credentials_are_accepted_as_they_are() {
    let ok = check_config(config("abc", "shh")).unwrap();
    assert_eq!(ok.client_id, "abc");
    assert_eq!(ok.device_name, "SESH");
    assert!(check_config(config("abc", "   ")).is_err());
}

#[test]
fn search_results_without_a_uri_are_dropped() {
    let body = object(vec![(
        "tracks",
        object(vec![(
            "items",
            Value::Array(vec![
                object(vec![("uri", s("spotify:track:a")), ("name", s("A"))]),
                object(vec![("name", s("No uri"))]),
                object(vec![("uri", s("spotify:track:b")), ("name", s("B"))]),
            ]),
        )]),
    )]);
    let tracks = tracks_from_search(Some(&body));
    let uris: Vec<&str> = tracks.iter().map(|t| t.uri.as_str()).collect();
    assert_eq!(uris, vec!["spotify:track:a", "spotify:track:b"]);
    assert!(tracks_from_search(None).is_empty());
}

#[test]
fn the_room_device_is_found_by_name() {
    let body = object(vec![(
        "devices",
        Value::Array(vec![
            object(vec![("id", s("d1")), ("name", s("Phone"))]),
            object(vec![("id", s("d2")), ("name", s("SESH"))]),
        ]),
    )]);
    assert_eq!(device_id_in(&body, "SESH"), Some("d2".to_string()));
    assert_eq!(device_id_in(&body, "Kitchen"), None);
}

#[test]
fn a_retry_after_is_read_and_capped() {
    assert_eq!(parse_u64("42"), Some(42));
    assert_eq!(parse_u64("+7"), Some(7));
    assert_eq!(parse_u64("-1"), None);
    assert_eq!(parse_u64(""), None);
    assert_eq!(parse_u64("18446744073709551616"), None);
    assert_eq!(backoff_seconds(Some("5")), 5);
    assert_eq!(backoff_seconds(Some("soon")), 1);
    assert_eq!(backoff_seconds(None), 1);
    assert_eq!(backoff_seconds(Some("3600")), MAX_RETRY_AFTER_S);
}

#[test]
fn answers_follow_the_status() {
    assert!(matches!(answer(401, 1, None, "401", "", "GET", "/me"), Answer::Reauthorise));
    assert!(matches!(answer(429, 1, Some("2"), "429", "", "GET", "/me"), Answer::Backoff(2)));
    assert!(matches!(answer(204, 1, None, "204", "", "GET", "/me"), Answer::Nothing));
    assert!(matches!(answer(200, 1, None, "200 OK", "  ", "GET", "/me"), Answer::Nothing));
    match answer(200, 1, None, "200 OK", "{}", "GET", "/me") {
        Answer::Body(b) => assert_eq!(b, "{}"),
        other => panic!("expected a body, got {other:?}"),
    }
    match answer(404, 1, None, "404 Not Found", "gone", "GET", "/me") {
        Answer::Failed(msg) => assert_eq!(msg, "Spotify GET /me failed (404 Not Found): gone"),
        other => panic!("expected a failure, got {other:?}"),
    }
    match answer(401, MAX_ATTEMPTS, None, "401 Unauthorized", "no", "GET", "/me") {
        Answer::Failed(msg) => assert_eq!(msg, "Spotify GET /me failed (401 Unauthorized): no"),
        other => panic!("expected a failure, got {other:?}"),
    }
}

#[test]
fn giving_up_names_the_call_and_the_attempts() {
    assert_eq!(exhausted("PUT", "/me/player"), "Spotify PUT /me/player did not succeed in 3 attempts");
}

#[test]
fn bodies_carry_exactly_what_the_source_needs() {
    assert_eq!(
        play_body("spotify:track:a"),
        object(vec![("uris", Value::Array(vec![s("spotify:track:a")]))])
    );
    assert_eq!(
        transfer_body("d2"),
        object(vec![("device_ids", Value::Array(vec![s("d2")])), ("play", Value::Bool(false))])
    );
}

#[test]
fn a_minted_token_is_held_until_a_minute_before_it_expires() {
    let mut tokens = Tokens::new("r1".to_string());
    assert_eq!(tokens.cached(0), None);
    let access = Access { token: "a1".to_string(), expires_in_s: 3600, refresh_token: None };
    assert!(Tokens::expiry_fits(1_000, 3600));
    assert_eq!(tokens.refreshed(&access, 1_000), None);
    assert_eq!(tokens.cached(1_000), Some("a1".to_string()));
    assert_eq!(tokens.cached(1_000 + 3_540_000 - 1), Some("a1".to_string()));
    assert_eq!(tokens.cached(1_000 + 3_540_000), None);
    tokens.forget_access();
    assert_eq!(tokens.cached(1_000), None);
}

#[test]
fn a_rotated_refresh_token_is_handed_back() {
    let mut tokens = Tokens::new("r1".to_string());
    let access = Access {
        token: "a2".to_string(),
        expires_in_s: 30,
        refresh_token: Some("r2".to_string()),
    };
    assert_eq!(tokens.refreshed(&access, 5_000), Some("r2".to_string()));
    assert_eq!(tokens.refresh, "r2");
    assert_eq!(tokens.expires_at_ms, 5_000, "a short life is never stretched into the past");
    assert!(!Tokens::expiry_fits(i64::MAX, 3600));
}
