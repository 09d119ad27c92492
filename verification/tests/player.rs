use seshd::player::mock::{Call, MockPlayer};
use seshd::player::{Playback, Track};

fn playing(duration_ms: i64, progress_ms: i64) -> Playback {
    Playback {
        track: Track {
            uri: "spotify:track:a".into(),
            title: "A".into(),
            artist: "Someone".into(),
            duration_ms,
        },
        progress_ms,
        is_playing: true,
        device: None,
    }
}

#[test]
fn remaining_counts_down_to_the_end_of_the_track() {
    assert_eq!(playing(210_000, 0).remaining_ms(), 210_000);
    assert_eq!(playing(210_000, 200_000).remaining_ms(), 10_000);
    assert_eq!(playing(210_000, 210_000).remaining_ms(), 0);
}

#[test]
fn remaining_never_goes_negative() {
    assert_eq!(playing(210_000, 215_000).remaining_ms(), 0);
}

#[test]
fn remaining_is_the_whole_track_when_the_length_is_unknown() {
    assert_eq!(playing(0, 0).remaining_ms(), 0);
}

fn track(uri: &str) -> Track {
    Track {
        uri: uri.into(),
        title: "A".into(),
        artist: "Someone".into(),
        duration_ms: 210_000,
    }
}

#[test]
fn a_fresh_mock_is_playing_nothing() {
    let mut player = MockPlayer::new();
    assert_eq!(player.playback().unwrap(), None);
    assert_eq!(player.search("anything").unwrap(), vec![]);
}

#[test]
fn scripted_playback_is_returned() {
    let mut player = MockPlayer::new();
    player.set_playback(Some(Playback {
        track: track("spotify:track:a"),
        progress_ms: 1_000,
        is_playing: true,
        device: Some("SESH".into()),
    }));

    let now = player.playback().unwrap().unwrap();
    assert_eq!(now.track.uri, "spotify:track:a");
    assert_eq!(now.remaining_ms(), 209_000);
}

#[test]
fn every_call_is_recorded_in_order() {
    let mut player = MockPlayer::new();
    player.transfer().unwrap();
    player.enqueue("spotify:track:a").unwrap();
    player.skip().unwrap();
    let _ = player.search("teenage dirtbag");

    assert_eq!(
        player.calls(),
        vec![
            Call::Transfer,
            Call::Enqueue("spotify:track:a".into()),
            Call::Skip,
            Call::Search("teenage dirtbag".into()),
        ]
    );
    assert_eq!(player.enqueued(), vec!["spotify:track:a".to_string()]);
    assert_eq!(player.skips(), 1);
}

#[test]
fn a_broken_player_fails_every_call() {
    let mut player = MockPlayer::new();
    player.fail_with("spotify unreachable");

    assert!(player.playback().is_err());
    assert!(player.enqueue("spotify:track:a").is_err());
    assert!(player.skip().is_err());

    player.recover();
    assert!(player.playback().is_ok());
}

#[test]
fn a_failed_call_is_still_recorded() {
    let mut player = MockPlayer::new();
    player.fail_with("down");
    let _ = player.enqueue("spotify:track:a");

    assert_eq!(player.enqueued(), vec!["spotify:track:a".to_string()]);
}

#[test]
fn calls_can_be_cleared_without_losing_the_script() {
    let mut player = MockPlayer::new();
    player.set_results(vec![track("spotify:track:a")]);
    let _ = player.search("a");
    player.clear_calls();

    assert!(player.calls().is_empty());
    assert_eq!(player.search("a").unwrap().len(), 1);
}

#[test]
fn a_write_failure_spares_reads_and_names_itself() {
    let mut player = MockPlayer::new();
    player.fail_writes_with("no device");
    assert!(player.playback().is_ok());
    assert_eq!(player.play("spotify:track:a"), Err("mock player write failure: no device".to_string()));
    assert_eq!(player.pause(), Err("mock player write failure: no device".to_string()));
    assert_eq!(player.resume(), Err("mock player write failure: no device".to_string()));
    assert!(player.search("a").is_ok());
    assert_eq!(player.played(), vec!["spotify:track:a".to_string()]);
    assert_eq!(player.calls().len(), 5);
    player.fail_with("down");
    assert_eq!(player.resume(), Err("mock player failure: down".to_string()));
}
