//! The event type. Everything in SESH is an event or a view of events.

pub mod kind;

use vstd::prelude::*;

use crate::json::Value;
use crate::strset::views;
use crate::text::owned;

verus! {

/// A recorded fact about the room. Immutable once appended.
#[derive(Debug, PartialEq)]
pub struct Event {
    /// Monotonic, never reused. Assigned by the store.
    pub id: i64,
    /// Unix milliseconds. Assigned by the store.
    pub ts_ms: i64,
    /// Dotted kind, e.g. `presence.arrived`. Free-form on purpose: future
    /// producers add kinds without a schema migration.
    pub kind: String,
    /// Person ids this event is about.
    pub actors: Vec<String>,
    /// What the event acted on — an app id, a game, a track.
    pub subject: Option<String>,
    /// Kind-specific detail.
    pub payload: Value,
}

/// An event that has not been appended yet — no id, no timestamp.
#[derive(Debug, PartialEq)]
pub struct NewEvent {
    /// Dotted kind, e.g. `app.launched`.
    pub kind: String,
    /// Person ids this event is about.
    pub actors: Vec<String>,
    /// What the event acted on.
    pub subject: Option<String>,
    /// Kind-specific detail. Defaults to an empty object.
    pub payload: Value,
}

/// The view of an optional string.
pub open spec fn opt_view(s: Option<String>) -> Option<Seq<char>> {
    match s {
        Some(s) => Some(s@),
        None => None,
    }
}

/// Whether a payload is the empty object.
pub open spec fn is_empty_object(p: Value) -> bool {
    p matches Value::Object(m) && m@.len() == 0
}

impl NewEvent {
    /// Start building an event of the given kind.
    pub fn new(kind: &str) -> (r: Self)
        ensures
            r.kind@ == kind@,
            r.actors@.len() == 0,
            r.subject is None,
            is_empty_object(r.payload),
    {
        NewEvent {
            kind: owned(kind),
            actors: Vec::new(),
            subject: None,
            payload: Value::empty_object(),
        }
    }

    /// Add a person this event is about.
    pub fn actor(self, id: &str) -> (r: Self)
        ensures
            views(r.actors@) == views(self.actors@).push(id@),
            r.kind == self.kind,
            r.subject == self.subject,
            r.payload == self.payload,
    {
        let mut next = self;
        let ghost before = next.actors@;
        let who = owned(id);
        next.actors.push(who);
        assert(views(next.actors@) =~= views(before).push(id@));
        next
    }

    /// Set what the event acted on.
    pub fn subject(self, subject: &str) -> (r: Self)
        ensures
            opt_view(r.subject) == Some(subject@),
            r.kind == self.kind,
            r.actors == self.actors,
            r.payload == self.payload,
    {
        let mut next = self;
        next.subject = Some(owned(subject));
        next
    }

    /// Set kind-specific detail.
    pub fn payload(self, payload: Value) -> (r: Self)
        ensures
            r.payload == payload,
            r.kind == self.kind,
            r.actors == self.actors,
            r.subject == self.subject,
    {
        let mut next = self;
        next.payload = payload;
        next
    }

    /// The event as the log stores it, once the log has given it an id and
    /// a timestamp.
    pub fn into_event(self, id: i64, ts_ms: i64) -> (r: Event)
        ensures
            r.id == id,
            r.ts_ms == ts_ms,
            r.kind == self.kind,
            r.actors == self.actors,
            r.subject == self.subject,
            r.payload == self.payload,
    {
        Event {
            id,
            ts_ms,
            kind: self.kind,
            actors: self.actors,
            subject: self.subject,
            payload: self.payload,
        }
    }
}

/// A copy of a list of strings.
pub fn clone_strings(v: &[String]) -> (r: Vec<String>)
    ensures
        views(r@) == views(v@),
{
    let mut out: Vec<String> = Vec::new();
    let mut i: usize = 0;
    while i < v.len()
        invariant
            i <= v@.len(),
            views(out@) == views(v@).subrange(0, i as int),
        decreases v@.len() - i,
    {
        let item = v[i].clone();
        let ghost prev = out@;
        out.push(item);
        assert(views(out@) =~= views(prev).push(item@));
        i = i + 1;
        assert(views(out@) =~= views(v@).subrange(0, i as int));
    }
    assert(views(v@).subrange(0, v@.len() as int) =~= views(v@));
    out
}

/// A copy of an optional string.
pub fn clone_opt(s: &Option<String>) -> (r: Option<String>)
    ensures
        opt_view(r) == opt_view(*s),
{
    match s {
        Some(s) => Some(s.clone()),
        None => None,
    }
}

} // verus!
