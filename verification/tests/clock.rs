use seshd::clock::{mark_if_unsynced, Clock, TestClock, CLOCK_SYNCED};
use seshd::event::{Event, NewEvent};
use seshd::json::Value;

#[test]
fn a_wall_clock_jump_does_not_move_the_monotonic_clock() {
    let mut clock = TestClock::new(1_787_161_000_000);
    clock.advance(9_200);

    let mono_before = clock.mono_ms();
    let wall_before = clock.now_ms();

    clock.set_wall_ms(wall_before + 13 * 60 * 1000 + 28_000);

    assert_eq!(clock.mono_ms(), mono_before, "monotonic must not jump");
    assert_eq!(clock.now_ms() - wall_before, 808_000, "the wall clock did jump");
}

#[test]
fn advancing_moves_both_clocks_together() {
    let mut clock = TestClock::new(1_000_000);
    clock.advance(250);
    assert_eq!(clock.now_ms(), 1_000_250);
    assert_eq!(clock.mono_ms(), 250);
}

#[test]
fn a_test_clock_starts_untrusted_and_can_be_told_otherwise() {
    let mut clock = TestClock::new(1_000_000);
    assert!(!clock.synced());
    clock.set_synced(true);
    assert!(clock.synced());
}

fn object(members: Vec<(&str, Value)>) -> Value {
    Value::Object(members.into_iter().map(|(k, v)| (k.to_string(), v)).collect())
}

/// What the store does on append: stamp from the clock, and mark the row
/// when the clock is not yet trusted.
fn append(clock: &TestClock, mut new: NewEvent, id: i64) -> Event {
    mark_if_unsynced(&mut new.payload, clock.synced());
    new.into_event(id, clock.now_ms())
}

#[test]
fn the_timestamp_comes_from_the_clock() {
    let clock = TestClock::new(1_787_161_000_000);
    let written = append(&clock, NewEvent::new("a"), 1);
    assert_eq!(written.ts_ms, 1_787_161_000_000);
}

#[test]
fn a_trusted_clock_leaves_the_payload_untouched() {
    let mut clock = TestClock::new(1_787_161_000_000);
    clock.set_synced(true);

    let written = append(&clock, NewEvent::new("a"), 1);
    assert_eq!(written.payload, object(vec![]));
}

#[test]
fn an_untrusted_clock_marks_the_row() {
    let clock = TestClock::new(1_787_161_000_000);
    let written = append(&clock, NewEvent::new("a"), 1);
    assert_eq!(written.payload.get(CLOCK_SYNCED), Some(&Value::Bool(false)));
}

#[test]
fn the_mark_sits_alongside_whatever_the_caller_recorded() {
    let clock = TestClock::new(1_787_161_000_000);
    let written = append(
        &clock,
        NewEvent::new("app.exited").payload(object(vec![
            ("exit_observed", Value::Bool(false)),
            ("last_alive_ms", Value::Int(1_787_161_900_000)),
        ])),
        1,
    );

    assert_eq!(written.payload.get(CLOCK_SYNCED), Some(&Value::Bool(false)));
    assert_eq!(written.payload.get("exit_observed"), Some(&Value::Bool(false)));
    assert_eq!(written.payload.get("last_alive_ms"), Some(&Value::Int(1_787_161_900_000)));
}

#[test]
fn rows_written_after_the_clock_syncs_are_unmarked() {
    let mut clock = TestClock::new(1_787_161_000_000);
    let before = append(&clock, NewEvent::new("before"), 1);

    clock.set_synced(true);
    clock.set_wall_ms(1_787_161_808_000);
    let after = append(&clock, NewEvent::new("after"), 2);

    assert_eq!(before.payload.get(CLOCK_SYNCED), Some(&Value::Bool(false)));
    assert_eq!(after.payload, object(vec![]));
    assert_eq!(after.ts_ms, 1_787_161_808_000);
}

#[test]
fn the_store_does_not_clobber_a_mark_the_caller_set() {
    let clock = TestClock::new(1_787_161_000_000);
    let written =
        append(&clock, NewEvent::new("a").payload(object(vec![(CLOCK_SYNCED, Value::Bool(true))])), 1);
    assert_eq!(written.payload.get(CLOCK_SYNCED), Some(&Value::Bool(true)));
}

#[test]
fn a_payload_that_is_not_an_object_is_left_as_it_is() {
    let clock = TestClock::new(1_787_161_000_000);
    let written =
        append(&clock, NewEvent::new("a").payload(Value::Str("just a string".to_string())), 1);
    assert_eq!(written.payload, Value::Str("just a string".to_string()));
}

#[test]
fn advancing_past_the_end_of_the_range_wraps() {
    let mut clock = TestClock::new(i64::MAX);
    clock.advance(1);
    assert_eq!(clock.now_ms(), i64::MIN);
}
