//! Where the room's decisions are written down.
//!
//! The log proper is a database at the edge of the daemon. What the rules
//! here need of it is only that an append either happens, exactly, or
//! fails and leaves the log as it was.

use vstd::prelude::*;

use crate::event::NewEvent;
use crate::text::owned;

verus! {

/// Somewhere events are appended.
///
/// An implementation promises that a successful `record` appends exactly
/// the event it was given, and a failed one appends nothing.
///
/// `recorded` has a default because an implementation built outside
/// verified code, over the real database, cannot state what it holds; such
/// an implementation is held to this contract by nothing, and the default
/// describes nothing.
pub trait Log {
    /// What has been appended so far, oldest first.
    open spec fn recorded(&self) -> Seq<NewEvent> {
        Seq::empty()
    }

    /// Append one event.
    fn record(&mut self, event: NewEvent) -> (r: Result<(), String>)
        ensures
            r is Ok ==> final(self).recorded() == old(self).recorded().push(event),
            r is Err ==> final(self).recorded() == old(self).recorded(),
    ;
}

/// A log held in memory, for tests: keeps every event, and can be told to
/// refuse the next one.
#[derive(Debug)]
pub struct MemoryLog {
    events: Vec<NewEvent>,
    fail_next: bool,
}

impl MemoryLog {
    /// An empty log that accepts everything.
    pub fn new() -> (r: Self)
        ensures
            r.recorded() == Seq::<NewEvent>::empty(),
            !r.fails_next(),
    {
        MemoryLog { events: Vec::new(), fail_next: false }
    }

    /// Whether the next append will be refused.
    pub closed spec fn fails_next(&self) -> bool {
        self.fail_next
    }

    /// Everything appended, oldest first.
    pub fn events(&self) -> (r: &[NewEvent])
        ensures
            r@ == self.recorded(),
    {
        self.events.as_slice()
    }

    /// Everything appended, oldest first, handed over.
    pub fn into_events(self) -> (r: Vec<NewEvent>)
        ensures
            r@ == self.recorded(),
    {
        self.events
    }

    /// Refuse the next append, as a database that cannot write would.
    pub fn fail_next_record(&mut self)
        ensures
            final(self).recorded() == old(self).recorded(),
            final(self).fails_next(),
    {
        self.fail_next = true;
    }
}

impl Log for MemoryLog {
    closed spec fn recorded(&self) -> Seq<NewEvent> {
        self.events@
    }

    fn record(&mut self, event: NewEvent) -> (r: Result<(), String>)
        ensures
            old(self).fails_next() ==> r is Err && !final(self).fails_next(),
            !old(self).fails_next() ==> r is Ok && !final(self).fails_next(),
    {
        if self.fail_next {
            self.fail_next = false;
            return Err(owned("simulated record failure"));
        }
        self.events.push(event);
        Ok(())
    }
}

} // verus!
