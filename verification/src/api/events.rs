//! Reading the event log over HTTP.

use vstd::prelude::*;

verus! {

/// How many events a read returns when it names no limit.
pub const DEFAULT_LIMIT: i64 = 500;

/// Query parameters for reading history.
#[derive(Debug)]
pub struct EventsQuery {
    /// Return events with an id greater than this. Defaults to 0.
    pub after: i64,
    /// Maximum number of events. Defaults to [`DEFAULT_LIMIT`].
    pub limit: Option<i64>,
}

impl EventsQuery {
    /// The limit to read with.
    pub fn limit_or_default(&self) -> (r: i64)
        ensures
            r == match self.limit {
                Some(n) => n,
                None => DEFAULT_LIMIT,
            },
    {
        match self.limit {
            Some(n) => n,
            None => DEFAULT_LIMIT,
        }
    }
}

} // verus!
