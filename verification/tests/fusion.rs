use seshd::presence::fusion::{window_ms, Fusion};
use seshd::presence::via::Via;

const T0: i64 = 1_786_937_604_000;
const MIN: i64 = 60 * 1000;

fn at(minutes: i64) -> i64 {
    T0 + minutes * MIN
}

#[test]
fn nobody_is_present_in_an_empty_room() {
    let fusion = Fusion::new();
    assert!(fusion.present(T0).is_empty());
    assert_eq!(fusion.via_for("sam", T0), None);
}

#[test]
fn one_signal_is_enough_to_be_here() {
    let mut fusion = Fusion::new();
    fusion.seen("sam", &Via::Heartbeat, T0);

    assert_eq!(fusion.present(T0), vec!["sam".to_string()]);
    assert_eq!(fusion.via_for("sam", T0), Some(Via::Heartbeat));
}

#[test]
fn a_signal_stops_counting_once_its_own_window_passes() {
    let mut fusion = Fusion::new();
    fusion.seen("sam", &Via::Ble, T0);

    let window = window_ms(&Via::Ble);
    assert!(fusion.is_present("sam", T0 + window - 1));
    assert!(!fusion.is_present("sam", T0 + window));
}

#[test]
fn the_windows_actually_differ_per_signal() {
    let ble = window_ms(&Via::Ble);
    let heartbeat = window_ms(&Via::Heartbeat);
    let wifi = window_ms(&Via::Wifi);
    let asserted = window_ms(&Via::Asserted);

    assert!(ble < heartbeat, "a BLE gap means more than a heartbeat gap");
    assert!(heartbeat < wifi, "a lease outlives a dozing phone");
    assert!(wifi < asserted, "a human's word outlasts a lease");
}

#[test]
fn presence_is_the_union_of_live_signals() {
    let mut fusion = Fusion::new();
    fusion.seen("sam", &Via::Heartbeat, T0);
    fusion.seen("sam", &Via::Ble, at(20));

    assert!(
        fusion.is_present("sam", at(20)),
        "the heartbeat expiring does not remove someone a radio can see"
    );
    assert_eq!(fusion.via_for("sam", at(20)), Some(Via::Ble));
}

#[test]
fn a_stale_strong_signal_does_not_evict_a_live_weak_one() {
    let mut fusion = Fusion::new();
    fusion.seen("sam", &Via::Ble, T0);
    fusion.seen("sam", &Via::Heartbeat, at(20));

    assert!(
        fusion.is_present("sam", at(20)),
        "a scanner going quiet must not empty a room full of people"
    );
    assert_eq!(fusion.via_for("sam", at(20)), Some(Via::Heartbeat));
}

#[test]
fn a_strong_signal_that_looked_and_found_nothing_does_evict() {
    let mut fusion = Fusion::new();
    fusion.seen("sam", &Via::Heartbeat, T0);
    fusion.missing("sam", &Via::Ble, T0);

    assert!(!fusion.is_present("sam", T0), "a tab left open is not a person");
}

#[test]
fn a_missing_verdict_stops_counting_once_it_ages_out() {
    let mut fusion = Fusion::new();
    fusion.missing("sam", &Via::Ble, T0);
    fusion.seen("sam", &Via::Heartbeat, T0);
    assert!(!fusion.is_present("sam", T0), "the fresh verdict evicts");

    fusion.seen("sam", &Via::Heartbeat, at(5));
    assert!(
        fusion.is_present("sam", at(5)),
        "one stale look must not exile someone for the rest of the evening"
    );
    assert_eq!(fusion.via_for("sam", at(5)), Some(Via::Heartbeat));
}

#[test]
fn a_weak_signal_looking_and_failing_does_not_evict_a_strong_one() {
    let mut fusion = Fusion::new();
    fusion.seen("sam", &Via::Ble, T0);
    fusion.missing("sam", &Via::Wifi, T0);

    assert!(fusion.is_present("sam", T0));
    assert_eq!(fusion.via_for("sam", T0), Some(Via::Ble));
}

#[test]
fn a_human_outranks_every_radio_in_the_room() {
    let mut fusion = Fusion::new();
    fusion.missing("marcus", &Via::Ble, T0);
    fusion.missing("marcus", &Via::Wifi, T0);
    fusion.seen("marcus", &Via::Asserted, T0);

    assert!(
        fusion.is_present("marcus", T0),
        "a room that cannot be told it is wrong becomes infuriating"
    );
    assert_eq!(fusion.via_for("marcus", T0), Some(Via::Asserted));
}

#[test]
fn an_assertion_expires_rather_than_standing_forever() {
    let mut fusion = Fusion::new();
    fusion.seen("marcus", &Via::Asserted, T0);

    let window = window_ms(&Via::Asserted);
    assert!(fusion.is_present("marcus", T0 + window - 1));
    assert!(
        !fusion.is_present("marcus", T0 + window),
        "an assertion that never expires is a lie with a long half-life"
    );
}

#[test]
fn an_unknown_signal_is_believed_but_never_wins_an_argument() {
    let doorbell = Via::Other("doorbell".to_string());
    let mut fusion = Fusion::new();
    fusion.seen("sam", &doorbell, T0);
    assert!(fusion.is_present("sam", T0));

    fusion.missing("sam", &Via::Ble, T0);
    assert!(
        !fusion.is_present("sam", T0),
        "a signal we do not understand cannot outrank one we do"
    );
}

#[test]
fn people_are_decided_independently() {
    let mut fusion = Fusion::new();
    fusion.seen("sam", &Via::Ble, T0);
    fusion.missing("jess", &Via::Ble, T0);
    fusion.seen("jess", &Via::Heartbeat, T0);

    assert_eq!(fusion.present(T0), vec!["sam".to_string()]);
}

fn sweep(fusion: &mut Fusion, person: &str, via: &Via, from: i64, to: i64) {
    for m in from..=to {
        fusion.seen(person, via, at(m));
    }
}

#[test]
fn a_synthetic_evening() {
    let mut fusion = Fusion::new();

    sweep(&mut fusion, "tate", &Via::Ble, 0, 0);
    sweep(&mut fusion, "tate", &Via::Heartbeat, 0, 0);
    assert_eq!(fusion.present(at(0)), vec!["tate".to_string()]);

    sweep(&mut fusion, "tate", &Via::Ble, 1, 10);
    sweep(&mut fusion, "tate", &Via::Heartbeat, 1, 10);
    sweep(&mut fusion, "sam", &Via::Heartbeat, 10, 10);
    assert_eq!(fusion.present(at(10)), vec!["sam".to_string(), "tate".to_string()]);

    sweep(&mut fusion, "tate", &Via::Ble, 11, 19);
    sweep(&mut fusion, "tate", &Via::Heartbeat, 11, 19);
    assert!(fusion.is_present("sam", at(19)));

    sweep(&mut fusion, "tate", &Via::Ble, 20, 25);
    sweep(&mut fusion, "tate", &Via::Heartbeat, 20, 25);

    sweep(&mut fusion, "tate", &Via::Ble, 26, 40);
    assert!(!fusion.is_present("sam", at(40)));

    assert!(fusion.is_present("tate", at(40)));
    assert_eq!(fusion.via_for("tate", at(40)), Some(Via::Ble));

    sweep(&mut fusion, "tate", &Via::Ble, 41, 59);
    fusion.missing("tate", &Via::Ble, at(60));
    assert!(!fusion.is_present("tate", at(60)));
    assert!(fusion.present(at(60)).is_empty());
}

#[test]
fn forgetting_old_signals_does_not_change_who_is_here() {
    let mut fusion = Fusion::new();
    fusion.seen("sam", &Via::Heartbeat, T0);
    fusion.seen("tate", &Via::Ble, at(120));

    let before = fusion.present(at(120));
    fusion.forget_before(at(60));

    assert_eq!(fusion.present(at(120)), before);
    assert_eq!(fusion.present(at(120)), vec!["tate".to_string()]);
}

#[test]
fn of_two_unknown_signals_the_later_named_one_is_the_reason() {
    let mut fusion = Fusion::new();
    fusion.seen("sam", &Via::Other("alpha".into()), T0);
    fusion.seen("sam", &Via::Other("omega".into()), T0);
    assert_eq!(fusion.via_for("sam", T0), Some(Via::Other("omega".into())));
}

#[test]
fn forgetting_everything_forgets_everyone() {
    let mut fusion = Fusion::new();
    fusion.seen("sam", &Via::Asserted, T0);
    fusion.forget_before(at(1));
    assert!(!fusion.is_present("sam", T0));
    assert_eq!(fusion.via_for("sam", T0), None);
}

#[test]
fn forgetting_old_signals_keeps_the_reason() {
    let mut fusion = Fusion::new();
    fusion.seen("sam", &Via::Ble, at(10));
    fusion.seen("sam", &Via::Wifi, at(390));
    fusion.seen("sam", &Via::Heartbeat, at(395));
    fusion.seen("tate", &Via::Heartbeat, at(5));

    let before = fusion.via_for("sam", at(400));
    assert_eq!(before, Some(Via::Wifi));
    fusion.forget_before(at(40));

    assert_eq!(fusion.via_for("sam", at(400)), before);
    assert_eq!(fusion.via_for("tate", at(5)), None);
    assert_eq!(fusion.present(at(400)), vec!["sam".to_string()]);
}

#[test]
fn the_present_list_is_in_id_order_before_and_after_forgetting() {
    let mut fusion = Fusion::new();
    fusion.seen("tate", &Via::Wifi, at(390));
    fusion.seen("alex", &Via::Heartbeat, at(395));
    fusion.seen("sam", &Via::Ble, at(399));
    fusion.seen("old", &Via::Ble, at(1));
    let expected = vec!["alex".to_string(), "sam".to_string(), "tate".to_string()];
    assert_eq!(fusion.present(at(400)), expected);
    fusion.forget_before(at(40));
    assert_eq!(fusion.present(at(400)), expected);
}
