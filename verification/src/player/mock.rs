//! A player that plays nothing and remembers everything.
//!
//! Every rule about when to push the next track, when a veto skips, and how
//! to behave when the source is unreachable can be exercised against this,
//! with a driven clock and no network.

use vstd::prelude::*;

use super::{Playback, PlaybackModel, Track, TrackModel};
use crate::strset::views;
use crate::text::concat;

verus! {

/// One call the player received, in order.
#[derive(Debug, Clone, PartialEq, Eq)]
pub enum Call {
    /// `playback` was polled.
    Playback,
    /// `search` was asked for this query.
    Search(String),
    /// This URI was handed to the source.
    Enqueue(String),
    /// This URI was started immediately.
    Play(String),
    /// The current track was abandoned.
    Skip,
    /// Playback was moved to the room's device.
    Transfer,
    /// Playback was stopped without losing its place.
    Pause,
    /// Playback was carried on from where it stopped.
    Resume,
}

/// What a call is.
pub enum CallModel {
    /// See [`Call::Playback`].
    Playback,
    /// See [`Call::Search`].
    Search(Seq<char>),
    /// See [`Call::Enqueue`].
    Enqueue(Seq<char>),
    /// See [`Call::Play`].
    Play(Seq<char>),
    /// See [`Call::Skip`].
    Skip,
    /// See [`Call::Transfer`].
    Transfer,
    /// See [`Call::Pause`].
    Pause,
    /// See [`Call::Resume`].
    Resume,
}

impl View for Call {
    type V = CallModel;

    open spec fn view(&self) -> CallModel {
        match self {
            Call::Playback => CallModel::Playback,
            Call::Search(q) => CallModel::Search(q@),
            Call::Enqueue(u) => CallModel::Enqueue(u@),
            Call::Play(u) => CallModel::Play(u@),
            Call::Skip => CallModel::Skip,
            Call::Transfer => CallModel::Transfer,
            Call::Pause => CallModel::Pause,
            Call::Resume => CallModel::Resume,
        }
    }
}

/// Whether a call asks the source to change something: every call but the
/// two that only read.
pub open spec fn changes_something(c: CallModel) -> bool {
    c is Enqueue || c is Play || c is Skip || c is Transfer || c is Pause || c is Resume
}

/// The models of a list of calls.
pub open spec fn call_views(v: Seq<Call>) -> Seq<CallModel> {
    v.map_values(|c: Call| c@)
}

/// The URIs started immediately, in order.
pub open spec fn played_uris(calls: Seq<CallModel>) -> Seq<Seq<char>>
    decreases calls.len(),
{
    if calls.len() == 0 {
        Seq::empty()
    } else {
        let prev = played_uris(calls.drop_last());
        match calls.last() {
            CallModel::Play(u) => prev.push(u),
            _ => prev,
        }
    }
}

/// The URIs handed over, in order.
pub open spec fn enqueued_uris(calls: Seq<CallModel>) -> Seq<Seq<char>>
    decreases calls.len(),
{
    if calls.len() == 0 {
        Seq::empty()
    } else {
        let prev = enqueued_uris(calls.drop_last());
        match calls.last() {
            CallModel::Enqueue(u) => prev.push(u),
            _ => prev,
        }
    }
}

/// How many calls abandoned the current track.
pub open spec fn skip_count(calls: Seq<CallModel>) -> nat
    decreases calls.len(),
{
    if calls.len() == 0 {
        0
    } else {
        skip_count(calls.drop_last()) + if calls.last() is Skip {
            1nat
        } else {
            0nat
        }
    }
}

/// What a mock player holds.
pub struct MockModel {
    /// What `playback` reports.
    pub playback: Option<PlaybackModel>,
    /// What `search` returns.
    pub results: Seq<TrackModel>,
    /// Every call, oldest first.
    pub calls: Seq<CallModel>,
    /// Why every call fails, if it does.
    pub failure: Option<Seq<char>>,
    /// Why every call that changes something fails, if it does.
    pub write_failure: Option<Seq<char>>,
}

/// The outcome of one call made of a mock holding `m`, once it has been
/// recorded: the failure message, if the call fails.
pub open spec fn failure_of(m: MockModel, c: CallModel) -> Option<Seq<char>> {
    match m.failure {
        Some(f) => Some("mock player failure: "@ + f),
        None => match m.write_failure {
            Some(w) => if changes_something(c) {
                Some("mock player write failure: "@ + w)
            } else {
                None
            },
            None => None,
        },
    }
}

/// The models of a list of tracks.
pub open spec fn track_views(v: Seq<Track>) -> Seq<TrackModel> {
    v.map_values(|t: Track| t@)
}

/// A player that records what it was asked to do.
#[derive(Debug)]
pub struct MockPlayer {
    playback: Option<Playback>,
    results: Vec<Track>,
    calls: Vec<Call>,
    failure: Option<String>,
    write_failure: Option<String>,
}

impl View for MockPlayer {
    type V = MockModel;

    closed spec fn view(&self) -> MockModel {
        MockModel {
            playback: match self.playback {
                Some(p) => Some(p@),
                None => None,
            },
            results: track_views(self.results@),
            calls: call_views(self.calls@),
            failure: match self.failure {
                Some(f) => Some(f@),
                None => None,
            },
            write_failure: match self.write_failure {
                Some(w) => Some(w@),
                None => None,
            },
        }
    }
}

/// A copy of a call.
fn copy_call(c: &Call) -> (r: Call)
    ensures
        r@ == c@,
{
    match c {
        Call::Playback => Call::Playback,
        Call::Search(q) => Call::Search(q.clone()),
        Call::Enqueue(u) => Call::Enqueue(u.clone()),
        Call::Play(u) => Call::Play(u.clone()),
        Call::Skip => Call::Skip,
        Call::Transfer => Call::Transfer,
        Call::Pause => Call::Pause,
        Call::Resume => Call::Resume,
    }
}

impl MockPlayer {
    /// A mock with nothing playing and nothing to find.
    pub fn new() -> (r: Self)
        ensures
            r@.playback is None,
            r@.results.len() == 0,
            r@.calls.len() == 0,
            r@.failure is None,
            r@.write_failure is None,
    {
        MockPlayer {
            playback: None,
            results: Vec::new(),
            calls: Vec::new(),
            failure: None,
            write_failure: None,
        }
    }

    /// Set what `playback` will report.
    pub fn set_playback(&mut self, playback: Option<Playback>)
        ensures
            final(self)@ == (MockModel {
                playback: match playback {
                    Some(p) => Some(p@),
                    None => None,
                },
                ..old(self)@
            }),
    {
        self.playback = playback;
    }

    /// Set what `search` will return.
    pub fn set_results(&mut self, results: Vec<Track>)
        ensures
            final(self)@ == (MockModel { results: track_views(results@), ..old(self)@ }),
    {
        self.results = results;
    }

    /// Make every call fail, standing in for an unreachable source.
    pub fn fail_with(&mut self, message: &str)
        ensures
            final(self)@ == (MockModel { failure: Some(message@), ..old(self)@ }),
    {
        self.failure = Some(message.to_string());
    }

    /// Fail only the calls that change something.
    ///
    /// A real state: with no active device Spotify answers the playback poll
    /// and refuses every write. The source is reachable, so the conductor
    /// must not mark itself offline.
    pub fn fail_writes_with(&mut self, message: &str)
        ensures
            final(self)@ == (MockModel { write_failure: Some(message@), ..old(self)@ }),
    {
        self.write_failure = Some(message.to_string());
    }

    /// Stop failing.
    pub fn recover(&mut self)
        ensures
            final(self)@ == (MockModel { failure: None, write_failure: None, ..old(self)@ }),
    {
        self.failure = None;
        self.write_failure = None;
    }

    /// Everything asked of this player, oldest first.
    pub fn calls(&self) -> (r: Vec<Call>)
        ensures
            call_views(r@) == self@.calls,
    {
        let mut out: Vec<Call> = Vec::new();
        let mut i: usize = 0;
        while i < self.calls.len()
            invariant
                i <= self.calls@.len(),
                call_views(out@) == call_views(self.calls@).subrange(0, i as int),
            decreases self.calls@.len() - i,
        {
            let c = copy_call(&self.calls[i]);
            let ghost prev = out@;
            out.push(c);
            assert(call_views(out@) =~= call_views(prev).push(c@));
            i = i + 1;
            assert(call_views(out@) =~= call_views(self.calls@).subrange(0, i as int));
        }
        assert(call_views(self.calls@).subrange(0, self.calls@.len() as int) =~= call_views(
            self.calls@,
        ));
        out
    }

    /// Every URI started immediately, in order.
    pub fn played(&self) -> (r: Vec<String>)
        ensures
            views(r@) == played_uris(self@.calls),
    {
        let mut out: Vec<String> = Vec::new();
        let mut i: usize = 0;
        let ghost calls = call_views(self.calls@);
        assert(calls.subrange(0, 0) =~= Seq::<CallModel>::empty());
        while i < self.calls.len()
            invariant
                i <= self.calls@.len(),
                calls == call_views(self.calls@),
                views(out@) == played_uris(calls.subrange(0, i as int)),
            decreases self.calls@.len() - i,
        {
            proof {
                let pre = calls.subrange(0, i + 1);
                assert(pre.drop_last() =~= calls.subrange(0, i as int));
                assert(pre.last() == self.calls@[i as int]@);
            }
            match &self.calls[i] {
                Call::Play(uri) => {
                    let ghost prev = out@;
                    out.push(uri.clone());
                    assert(views(out@) =~= views(prev).push(uri@));
                },
                _ => {},
            }
            i = i + 1;
        }
        assert(calls.subrange(0, self.calls@.len() as int) =~= calls);
        out
    }

    /// Every URI handed over, in order.
    pub fn enqueued(&self) -> (r: Vec<String>)
        ensures
            views(r@) == enqueued_uris(self@.calls),
    {
        let mut out: Vec<String> = Vec::new();
        let mut i: usize = 0;
        let ghost calls = call_views(self.calls@);
        assert(calls.subrange(0, 0) =~= Seq::<CallModel>::empty());
        while i < self.calls.len()
            invariant
                i <= self.calls@.len(),
                calls == call_views(self.calls@),
                views(out@) == enqueued_uris(calls.subrange(0, i as int)),
            decreases self.calls@.len() - i,
        {
            proof {
                let pre = calls.subrange(0, i + 1);
                assert(pre.drop_last() =~= calls.subrange(0, i as int));
                assert(pre.last() == self.calls@[i as int]@);
            }
            match &self.calls[i] {
                Call::Enqueue(uri) => {
                    let ghost prev = out@;
                    out.push(uri.clone());
                    assert(views(out@) =~= views(prev).push(uri@));
                },
                _ => {},
            }
            i = i + 1;
        }
        assert(calls.subrange(0, self.calls@.len() as int) =~= calls);
        out
    }

    /// How many times the current track was abandoned.
    pub fn skips(&self) -> (r: usize)
        ensures
            r == skip_count(self@.calls),
    {
        let mut count: usize = 0;
        let mut i: usize = 0;
        let ghost calls = call_views(self.calls@);
        assert(calls.subrange(0, 0) =~= Seq::<CallModel>::empty());
        while i < self.calls.len()
            invariant
                i <= self.calls@.len(),
                calls == call_views(self.calls@),
                count == skip_count(calls.subrange(0, i as int)),
                count <= i,
            decreases self.calls@.len() - i,
        {
            proof {
                let pre = calls.subrange(0, i + 1);
                assert(pre.drop_last() =~= calls.subrange(0, i as int));
                assert(pre.last() == self.calls@[i as int]@);
            }
            match &self.calls[i] {
                Call::Skip => {
                    count = count + 1;
                },
                _ => {},
            }
            i = i + 1;
        }
        assert(calls.subrange(0, self.calls@.len() as int) =~= calls);
        count
    }

    /// Forget every recorded call, keeping the scripted state.
    pub fn clear_calls(&mut self)
        ensures
            final(self)@ == (MockModel { calls: Seq::empty(), ..old(self)@ }),
    {
        self.calls = Vec::new();
        assert(call_views(self.calls@) =~= Seq::<CallModel>::empty());
    }

    /// Record the call, then fail if this mock is currently broken.
    ///
    /// Recording first is deliberate: a test asserting "the conductor did
    /// try to push a track while the source was down" needs the attempt
    /// visible.
    fn record(&mut self, call: Call) -> (r: Result<(), String>)
        ensures
            final(self)@ == (MockModel { calls: old(self)@.calls.push(call@), ..old(self)@ }),
            match r {
                Ok(()) => failure_of(old(self)@, call@) is None,
                Err(msg) => failure_of(old(self)@, call@) == Some(msg@),
            },
    {
        let changes = match &call {
            Call::Playback | Call::Search(_) => false,
            _ => true,
        };
        let ghost before = self.calls@;
        let ghost c = call@;
        self.calls.push(call);
        assert(call_views(self.calls@) =~= call_views(before).push(c));
        if let Some(failure) = &self.failure {
            return Err(concat("mock player failure: ", failure.as_str()));
        }
        if changes {
            if let Some(failure) = &self.write_failure {
                return Err(concat("mock player write failure: ", failure.as_str()));
            }
        }
        Ok(())
    }

    /// What is playing, or `None` when nothing is active.
    pub fn playback(&mut self) -> (r: Result<Option<Playback>, String>)
        ensures
            final(self)@ == (MockModel {
                calls: old(self)@.calls.push(CallModel::Playback),
                ..old(self)@
            }),
            match r {
                Ok(p) => failure_of(old(self)@, CallModel::Playback) is None && match p {
                    Some(p) => old(self)@.playback == Some(p@),
                    None => old(self)@.playback is None,
                },
                Err(msg) => failure_of(old(self)@, CallModel::Playback) == Some(msg@),
            },
    {
        self.record(Call::Playback)?;
        match &self.playback {
            Some(p) => Ok(Some(p.duplicate())),
            None => Ok(None),
        }
    }

    /// Find tracks matching a query: whatever results are scripted.
    pub fn search(&mut self, query: &str) -> (r: Result<Vec<Track>, String>)
        ensures
            final(self)@ == (MockModel {
                calls: old(self)@.calls.push(CallModel::Search(query@)),
                ..old(self)@
            }),
            match r {
                Ok(tracks) => failure_of(old(self)@, CallModel::Search(query@)) is None
                    && track_views(tracks@) == old(self)@.results,
                Err(msg) => failure_of(old(self)@, CallModel::Search(query@)) == Some(msg@),
            },
    {
        self.record(Call::Search(query.to_string()))?;
        let mut out: Vec<Track> = Vec::new();
        let mut i: usize = 0;
        while i < self.results.len()
            invariant
                i <= self.results@.len(),
                track_views(out@) == track_views(self.results@).subrange(0, i as int),
            decreases self.results@.len() - i,
        {
            let t = self.results[i].duplicate();
            let ghost prev = out@;
            out.push(t);
            assert(track_views(out@) =~= track_views(prev).push(t@));
            i = i + 1;
            assert(track_views(out@) =~= track_views(self.results@).subrange(0, i as int));
        }
        assert(track_views(self.results@).subrange(0, self.results@.len() as int)
            =~= track_views(self.results@));
        Ok(out)
    }

    /// Hand the source one track to play next.
    pub fn enqueue(&mut self, uri: &str) -> (r: Result<(), String>)
        ensures
            final(self)@ == (MockModel {
                calls: old(self)@.calls.push(CallModel::Enqueue(uri@)),
                ..old(self)@
            }),
            match r {
                Ok(()) => failure_of(old(self)@, CallModel::Enqueue(uri@)) is None,
                Err(msg) => failure_of(old(self)@, CallModel::Enqueue(uri@)) == Some(msg@),
            },
    {
        self.record(Call::Enqueue(uri.to_string()))
    }

    /// Start this track now.
    pub fn play(&mut self, uri: &str) -> (r: Result<(), String>)
        ensures
            final(self)@ == (MockModel {
                calls: old(self)@.calls.push(CallModel::Play(uri@)),
                ..old(self)@
            }),
            match r {
                Ok(()) => failure_of(old(self)@, CallModel::Play(uri@)) is None,
                Err(msg) => failure_of(old(self)@, CallModel::Play(uri@)) == Some(msg@),
            },
    {
        self.record(Call::Play(uri.to_string()))
    }

    /// Abandon the current track.
    pub fn skip(&mut self) -> (r: Result<(), String>)
        ensures
            final(self)@ == (MockModel {
                calls: old(self)@.calls.push(CallModel::Skip),
                ..old(self)@
            }),
            match r {
                Ok(()) => failure_of(old(self)@, CallModel::Skip) is None,
                Err(msg) => failure_of(old(self)@, CallModel::Skip) == Some(msg@),
            },
    {
        self.record(Call::Skip)
    }

    /// Move playback onto the room's own device.
    pub fn transfer(&mut self) -> (r: Result<(), String>)
        ensures
            final(self)@ == (MockModel {
                calls: old(self)@.calls.push(CallModel::Transfer),
                ..old(self)@
            }),
            match r {
                Ok(()) => failure_of(old(self)@, CallModel::Transfer) is None,
                Err(msg) => failure_of(old(self)@, CallModel::Transfer) == Some(msg@),
            },
    {
        self.record(Call::Transfer)
    }

    /// Stop, without losing the place in the track.
    pub fn pause(&mut self) -> (r: Result<(), String>)
        ensures
            final(self)@ == (MockModel {
                calls: old(self)@.calls.push(CallModel::Pause),
                ..old(self)@
            }),
            match r {
                Ok(()) => failure_of(old(self)@, CallModel::Pause) is None,
                Err(msg) => failure_of(old(self)@, CallModel::Pause) == Some(msg@),
            },
    {
        self.record(Call::Pause)
    }

    /// Carry on from where `pause` stopped.
    pub fn resume(&mut self) -> (r: Result<(), String>)
        ensures
            final(self)@ == (MockModel {
                calls: old(self)@.calls.push(CallModel::Resume),
                ..old(self)@
            }),
            match r {
                Ok(()) => failure_of(old(self)@, CallModel::Resume) is None,
                Err(msg) => failure_of(old(self)@, CallModel::Resume) == Some(msg@),
            },
    {
        self.record(Call::Resume)
    }
}

} // verus!
