//! Time, and whether it can be believed.
//!
//! The box has no battery-backed clock. On every cold boot the time is
//! corrected in two steps — restore the timestamp recorded at last shutdown,
//! then contact NTP — and the daemon starts between them.
//!
//! So two things a single wall-clock read conflates are kept apart:
//!
//! - **Durations** — "has a minute passed", "is this code stale". These come
//!   from [`Clock::mono_ms`], which no clock correction can move.
//! - **Recorded instants** — an event's `ts_ms`. These keep the wall clock
//!   and are marked, via [`Clock::synced`], when it was not yet
//!   trustworthy.

use vstd::prelude::*;

use crate::json::{field, has_field, member, Value};
use crate::text::owned;

verus! {

/// The file the time-sync daemon creates the first time it successfully
/// syncs.
pub const SYNCED_MARKER: &'static str = "/run/systemd/timesync/synchronized";

/// Payload key marking a row written before the wall clock could be trusted.
///
/// Absent means it could be. Written only when false, so a healthy box's
/// rows are what they always were and the key's mere presence is the signal.
pub const CLOCK_SYNCED: &'static str = "clock_synced";

/// The two clocks the daemon needs, and the question of whether one of them
/// is real.
pub trait Clock {
    /// Wall-clock milliseconds since the Unix epoch. For recorded instants.
    fn now_ms(&self) -> i64;

    /// Milliseconds from an arbitrary fixed origin, never moved by a clock
    /// correction. For durations.
    fn mono_ms(&self) -> i64;

    /// Whether the wall clock has been corrected against a time source yet.
    fn synced(&self) -> bool;
}

/// A clock tests drive directly, so the unsynced window is a unit test
/// rather than a reboot. The two clocks move independently on purpose: that
/// is the whole condition being reproduced.
#[derive(Debug)]
pub struct TestClock {
    wall_ms: i64,
    mono_ms: i64,
    synced: bool,
}

/// What a test clock reads.
pub struct ClockModel {
    /// The wall clock.
    pub wall_ms: i64,
    /// The monotonic clock.
    pub mono_ms: i64,
    /// Whether the wall clock is trusted.
    pub synced: bool,
}

impl View for TestClock {
    type V = ClockModel;

    closed spec fn view(&self) -> ClockModel {
        ClockModel { wall_ms: self.wall_ms, mono_ms: self.mono_ms, synced: self.synced }
    }
}

impl TestClock {
    /// A clock reading `wall_ms`, monotonic at zero, not yet synced.
    pub fn new(wall_ms: i64) -> (r: Self)
        ensures
            r@ == (ClockModel { wall_ms, mono_ms: 0, synced: false }),
    {
        TestClock { wall_ms, mono_ms: 0, synced: false }
    }

    /// Move the wall clock to `wall_ms`, leaving the monotonic clock alone.
    /// This is the NTP jump.
    pub fn set_wall_ms(&mut self, wall_ms: i64)
        ensures
            final(self)@ == (ClockModel { wall_ms, ..old(self)@ }),
    {
        self.wall_ms = wall_ms;
    }

    /// Advance both clocks by `ms`, wrapping as an atomic add does. This is
    /// time simply passing.
    pub fn advance(&mut self, ms: i64)
        ensures
            final(self)@ == (ClockModel {
                wall_ms: vstd::wrapping::i64_specs::wrapping_add(old(self)@.wall_ms, ms),
                mono_ms: vstd::wrapping::i64_specs::wrapping_add(old(self)@.mono_ms, ms),
                synced: old(self)@.synced,
            }),
    {
        self.wall_ms = self.wall_ms.wrapping_add(ms);
        self.mono_ms = self.mono_ms.wrapping_add(ms);
    }

    /// Declare the wall clock trustworthy, or not.
    pub fn set_synced(&mut self, synced: bool)
        ensures
            final(self)@ == (ClockModel { synced, ..old(self)@ }),
    {
        self.synced = synced;
    }
}

impl Clock for TestClock {
    /// The wall clock as last set.
    fn now_ms(&self) -> (r: i64)
        ensures
            r == self@.wall_ms,
    {
        self.wall_ms
    }

    /// The monotonic clock as last advanced.
    fn mono_ms(&self) -> (r: i64)
        ensures
            r == self@.mono_ms,
    {
        self.mono_ms
    }

    /// Whether the wall clock was declared trustworthy.
    fn synced(&self) -> (r: bool)
        ensures
            r == self@.synced,
    {
        self.synced
    }
}

/// Mark a payload written while the wall clock was not yet trusted.
///
/// Added, never overwritten: a caller that has answered the question owns
/// the answer. A payload that is not an object is left alone.
pub fn mark_if_unsynced(payload: &mut Value, synced: bool)
    ensures
        synced ==> *final(payload) == *old(payload),
        !synced ==> match *old(payload) {
            Value::Object(m) => if member(m@, CLOCK_SYNCED@) is Some {
                *final(payload) == *old(payload)
            } else {
                *final(payload) matches Value::Object(n) && n@ == m@.push(
                    (n@.last().0, Value::Bool(false)),
                ) && n@.last().0@ == CLOCK_SYNCED@
            },
            _ => *final(payload) == *old(payload),
        },
        !synced && *old(payload) is Object ==> field(*final(payload), CLOCK_SYNCED@) == if has_field(
            *old(payload),
            CLOCK_SYNCED@,
        ) {
            field(*old(payload), CLOCK_SYNCED@)
        } else {
            Some(Value::Bool(false))
        },
        forall|k: Seq<char>| k != CLOCK_SYNCED@ ==> field(*final(payload), k) == field(*old(payload), k),
{
    if !synced {
        payload.insert_if_absent(owned(CLOCK_SYNCED), Value::Bool(false));
    }
}

} // verus!
