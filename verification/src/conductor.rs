//! The decisions that make the speaker agree with the queue.
//!
//! Everything above this module decides *what the room wants*; this decides
//! *when to tell the source about it*, and what to write down about what
//! actually happened. The calls to the source and the writes to the log are
//! made by whoever drives the loop; every choice between them is made here.
//!
//! ## It believes the speaker, not the log
//!
//! The music source is its own service, so after a daemon restart the music
//! is still playing. The source is the ground truth and the log is corrected
//! to match it, never the reverse.
//!
//! ## One pass, in order
//!
//! Make the log agree with the speaker first ([`ConductorState::reconcile`]),
//! then act on vetoes against that corrected picture
//! ([`ConductorState::playing_veto`], [`ConductorState::pending_vetoes`]),
//! then decide what to hand over next ([`ConductorState::hand_over`]).
//! Acting before reconciling would vote on a stale queue. Nothing here is
//! scheduled by wall-clock time: [`poll_after`] says how long to wait.

use vstd::prelude::*;

use crate::event::{kind, opt_view, NewEvent};
use crate::json::Value;
use crate::player::{remaining, Playback, PlaybackModel};
use crate::projection::Projection;
use crate::projections::queue::{
    position_of, playing_is, EntryModel, Queue, QueueModel, entry_models,
};
use crate::strset::views;
use crate::text::{owned, str_eq};
use crate::veto::{should_skip, skips_set};

verus! {

/// How often to look while a track is playing, in milliseconds.
pub const POLL_PLAYING_MS: u64 = 3_000;

/// How often to look while the room is quiet, in milliseconds.
pub const POLL_IDLE_MS: u64 = 15_000;

/// How often to look while the source is unreachable, in milliseconds.
pub const POLL_OFFLINE_MS: u64 = 30_000;

/// How long before a track ends to hand the source its successor.
///
/// Anything pushed is committed — the source's queue cannot be reordered or
/// emptied — so this window is exactly how long a veto can arrive too late.
pub const PREPUSH_MS: i64 = 5_000;

/// How far progress must jump backwards to count as a replay rather than a
/// seek.
///
/// The only visible difference between "the same song, queued twice, second
/// copy now starting" and "somebody dragged the scrubber back" is this jump.
pub const REWIND_MS: i64 = 10_000;

/// Passes to sit out before retrying a veto-skip the source refused.
///
/// Long enough that a persistent failure costs a handful of calls a minute
/// rather than one per pass — a source hammered with skips rate-limits the
/// whole room — short enough that a transient one still resolves inside the
/// track it was voted against.
pub const SKIP_BACKOFF_TICKS: u32 = 5;

/// Whether the music source is answering.
///
/// Shared with the API so the music view can say `offline` rather than
/// quietly serving a queue that nothing is going to play.
#[derive(Debug)]
pub struct Status {
    online: bool,
}

impl Status {
    /// A status that starts out unknown, which reads as offline.
    pub fn new() -> (r: Self)
        ensures
            !r.online_spec(),
    {
        Status { online: false }
    }

    /// Whether the last poll reached the source.
    pub closed spec fn online_spec(&self) -> bool {
        self.online
    }

    /// Whether the last poll reached the source.
    pub fn is_online(&self) -> (r: bool)
        ensures
            r == self.online_spec(),
    {
        self.online
    }

    /// What to show a phone: `ok` or `offline`.
    pub fn label(&self) -> (r: &'static str)
        ensures
            r@ == (if self.online_spec() {
                "ok"@
            } else {
                "offline"@
            }),
    {
        if self.online {
            "ok"
        } else {
            "offline"
        }
    }

    /// Record the outcome of a poll. Returns true when this changed things,
    /// so a transition is logged once rather than on every poll.
    pub fn set(&mut self, online: bool) -> (r: bool)
        ensures
            final(self).online_spec() == online,
            r == (old(self).online_spec() != online),
    {
        let changed = self.online != online;
        self.online = online;
        changed
    }
}

/// What the conductor remembers between passes.
#[derive(Debug, Clone, Copy, PartialEq, Eq, Structural)]
pub struct ConductorState {
    /// Entry handed to the source but not yet seen playing.
    ///
    /// Committed: it cannot be un-queued, so a veto against it is honoured
    /// late rather than pretended away.
    pub pushed: Option<i64>,
    /// Last progress seen, to catch a track restarting at the same URI.
    pub last_progress_ms: i64,
    /// After a veto-skip that failed, how many passes to sit out.
    pub skip_backoff: u32,
}

/// Whether `e` records that entry `entry`, track `uri`, stopped for `why`.
pub open spec fn skipped_row(e: NewEvent, entry: i64, uri: Seq<char>, why: Seq<char>) -> bool {
    &&& e.kind@ == kind::MUSIC_SKIPPED@
    &&& e.actors@.len() == 0
    &&& opt_view(e.subject) == Some(uri)
    &&& e.payload matches Value::Object(m)
    &&& m@.len() == 2
    &&& m@[0].0@ == "entry"@ && m@[0].1 == Value::Int(entry)
    &&& m@[1].0@ == "why"@
    &&& (m@[1].1 matches Value::Str(w) && w@ == why)
}

/// Whether `e` records that the track `p` reports began, as entry `entry`
/// or, when `None`, as a track nobody here queued.
pub open spec fn started_row(e: NewEvent, p: PlaybackModel, entry: Option<i64>) -> bool {
    &&& e.kind@ == kind::MUSIC_STARTED@
    &&& e.actors@.len() == 0
    &&& opt_view(e.subject) == Some(p.track.uri)
    &&& e.payload matches Value::Object(m)
    &&& m@.len() == 4
    &&& m@[0].0@ == "entry"@
    &&& m@[0].1 == match entry {
        Some(x) => Value::Int(x),
        None => Value::Null,
    }
    &&& m@[1].0@ == "title"@
    &&& (m@[1].1 matches Value::Str(t) && t@ == p.track.title)
    &&& m@[2].0@ == "artist"@
    &&& (m@[2].1 matches Value::Str(a) && a@ == p.track.artist)
    &&& m@[3].0@ == "duration_ms"@ && m@[3].1 == Value::Int(p.track.duration_ms)
}

/// The entry with id `id`, waiting or playing; a waiting one is found first.
pub open spec fn found_entry(q: QueueModel, id: i64) -> Option<EntryModel> {
    match position_of(q.pending, id) {
        Some(i) => Some(q.pending[i]),
        None => if playing_is(q, id) {
            q.now_playing
        } else {
            None
        },
    }
}

/// The position of the first waiting entry from `i` on for track `uri`.
pub open spec fn uri_from(s: Seq<EntryModel>, uri: Seq<char>, i: int) -> Option<int>
    decreases s.len() - i,
{
    if i < 0 || i >= s.len() {
        None
    } else if s[i].uri == uri {
        Some(i)
    } else {
        uri_from(s, uri, i + 1)
    }
}

/// Which queue entry a track now playing corresponds to, if any: the one
/// handed over, if it is that track, else the first waiting copy of it.
/// `None` means nobody here queued it.
pub open spec fn claim_spec(q: QueueModel, pushed: Option<i64>, uri: Seq<char>) -> Option<i64> {
    let from_pushed = match pushed {
        Some(id) => match found_entry(q, id) {
            Some(e) => if e.uri == uri {
                Some(id)
            } else {
                None
            },
            None => None,
        },
        None => None,
    };
    match from_pushed {
        Some(id) => Some(id),
        None => match uri_from(q.pending, uri, 0) {
            Some(i) => Some(q.pending[i].entry),
            None => None,
        },
    }
}

/// The handed-over entry after a track is claimed: cleared if it was the
/// one claimed.
pub open spec fn pushed_after_claim(pushed: Option<i64>, claimed: Option<i64>) -> Option<i64> {
    if claimed is Some && pushed == claimed {
        None
    } else {
        pushed
    }
}

/// Whether the speaker shows a track start the log has not recorded: a
/// different track from the one the log says is playing, or the same one
/// restarted — a jump backwards in progress, with an entry handed over.
pub open spec fn needs_start(q: QueueModel, s: ConductorState, p: PlaybackModel) -> bool {
    let same_uri = q.now_playing matches Some(e) && e.uri == p.track.uri;
    let replayed = same_uri && s.pushed is Some && p.progress_ms + REWIND_MS
        < s.last_progress_ms;
    !same_uri || replayed
}

/// The conductor after the log has been made to agree with the speaker.
pub open spec fn after_reconcile(
    s: ConductorState,
    q: QueueModel,
    p: Option<PlaybackModel>,
) -> ConductorState {
    match p {
        None => ConductorState { last_progress_ms: 0, ..s },
        Some(p) => ConductorState {
            pushed: if needs_start(q, s, p) {
                pushed_after_claim(s.pushed, claim_spec(q, s.pushed, p.track.uri))
            } else {
                s.pushed
            },
            last_progress_ms: p.progress_ms,
            ..s
        },
    }
}

/// Whether `rows` are what the log needs to agree with the speaker: the
/// track the log says is playing has finished if the speaker is idle or
/// shows a new start, and a new start is recorded.
pub open spec fn reconcile_rows(
    rows: Seq<NewEvent>,
    s: ConductorState,
    q: QueueModel,
    p: Option<PlaybackModel>,
) -> bool {
    let ended = match p {
        None => true,
        Some(p) => needs_start(q, s, p),
    };
    let finished = if ended {
        match q.now_playing {
            Some(e) => 1int,
            None => 0int,
        }
    } else {
        0int
    };
    let started = match p {
        Some(p) => if needs_start(q, s, p) {
            1int
        } else {
            0int
        },
        None => 0int,
    };
    &&& rows.len() == finished + started
    &&& (finished == 1 ==> (q.now_playing matches Some(e) && skipped_row(
        rows[0],
        e.entry,
        e.uri,
        "finished"@,
    )))
    &&& (started == 1 ==> (p matches Some(p) && started_row(
        rows[finished],
        p,
        claim_spec(q, s.pushed, p.track.uri),
    )))
}

/// What to do about the track playing, given the votes against it.
#[derive(Debug)]
pub enum VetoStep {
    /// Nothing playing has been voted out; go on to the waiting tracks.
    Clear,
    /// A vetoed track is playing, but a recent skip failed: sit this pass
    /// out, waiting tracks included.
    SitOut,
    /// Ask the source to skip; report back with
    /// [`ConductorState::skip_result`].
    Skip {
        /// The entry playing.
        entry: i64,
        /// Its track.
        uri: String,
    },
}

/// What to hand the source next.
#[derive(Debug)]
pub enum Handover {
    /// Nothing to do.
    Nothing,
    /// Near the end of a track: queue the successor behind it. Report
    /// success with [`ConductorState::handed_over`].
    Enqueue {
        /// The entry handed over.
        entry: i64,
        /// Its track.
        uri: String,
    },
    /// Nothing on the speaker at all: start the successor now. Report
    /// success with [`ConductorState::handed_over`].
    Play {
        /// The entry handed over.
        entry: i64,
        /// Its track.
        uri: String,
    },
}

/// The waiting entries the room has voted out, in queue order, except the
/// one already committed to the source — it gets skipped the moment it
/// starts instead.
pub open spec fn vetoed_pending(
    q: QueueModel,
    pushed: Option<i64>,
    present: Seq<Seq<char>>,
) -> Seq<EntryModel> {
    q.pending.filter(|e: EntryModel| pushed != Some(e.entry) && skips_set(e.vetoes, present))
}

/// A `music.skipped` row.
fn skipped_event(entry: i64, uri: &str, why: &str) -> (r: NewEvent)
    ensures
        skipped_row(r, entry, uri@, why@),
{
    let members = vec![
        (owned("entry"), Value::Int(entry)),
        (owned("why"), Value::Str(owned(why))),
    ];
    NewEvent::new(kind::MUSIC_SKIPPED).subject(uri).payload(Value::Object(members))
}

/// A `music.started` row.
fn started_event(state: &Playback, entry: Option<i64>) -> (r: NewEvent)
    ensures
        started_row(r, state@, entry),
{
    let id = match entry {
        Some(x) => Value::Int(x),
        None => Value::Null,
    };
    let members = vec![
        (owned("entry"), id),
        (owned("title"), Value::Str(state.track.title.clone())),
        (owned("artist"), Value::Str(state.track.artist.clone())),
        (owned("duration_ms"), Value::Int(state.track.duration_ms)),
    ];
    NewEvent::new(kind::MUSIC_STARTED).subject(state.track.uri.as_str()).payload(
        Value::Object(members),
    )
}

proof fn lemma_uri_from(s: Seq<EntryModel>, uri: Seq<char>, i: int)
    requires
        0 <= i <= s.len(),
    ensures
        match uri_from(s, uri, i) {
            Some(p) => i <= p < s.len() && s[p].uri == uri && forall|j: int|
                i <= j < p ==> (#[trigger] s[j]).uri != uri,
            None => forall|j: int| i <= j < s.len() ==> (#[trigger] s[j]).uri != uri,
        },
    decreases s.len() - i,
{
    if i < s.len() && s[i].uri != uri {
        lemma_uri_from(s, uri, i + 1);
    }
}

/// How long to wait before the next pass, given what the source reported:
/// quickly while something plays, slowly while the room is quiet.
pub fn poll_after(playback: Option<&Playback>) -> (r: u64)
    ensures
        r == (if playback matches Some(p) && p.is_playing {
            POLL_PLAYING_MS
        } else {
            POLL_IDLE_MS
        }),
{
    match playback {
        Some(state) => if state.is_playing {
            POLL_PLAYING_MS
        } else {
            POLL_IDLE_MS
        },
        None => POLL_IDLE_MS,
    }
}

impl ConductorState {
    /// A conductor that has handed nothing over and seen nothing play.
    pub fn new() -> (r: Self)
        ensures
            r == (ConductorState { pushed: None, last_progress_ms: 0, skip_backoff: 0 }),
    {
        ConductorState { pushed: None, last_progress_ms: 0, skip_backoff: 0 }
    }

    /// Which queue entry the track now playing corresponds to, if any.
    ///
    /// `None` means nobody here queued it — someone pressed play in the
    /// source's own app. That is a legitimate thing to happen in a house,
    /// and the log records it rather than pretending the room is empty.
    fn claim(&mut self, queue: &Queue, uri: &str) -> (r: Option<i64>)
        ensures
            r == claim_spec(queue.model(), old(self).pushed, uri@),
            *final(self) == (ConductorState {
                pushed: pushed_after_claim(old(self).pushed, r),
                ..*old(self)
            }),
    {
        let ghost q = queue.model();
        let from_pushed = match self.pushed {
            Some(id) => match queue.find(id) {
                Some(entry) => if str_eq(entry.uri.as_str(), uri) {
                    Some(id)
                } else {
                    None
                },
                None => None,
            },
            None => None,
        };
        // A cold start goes out through `play` rather than a hand-over, so
        // fall back to the first waiting copy of this track.
        let claimed = match from_pushed {
            Some(id) => Some(id),
            None => {
                let pending = queue.pending();
                proof {
                    lemma_uri_from(q.pending, uri@, 0);
                }
                let mut found: Option<i64> = None;
                let mut i: usize = 0;
                while i < pending.len() && found.is_none()
                    invariant
                        entry_models(pending@) == q.pending,
                        i <= pending@.len(),
                        found is None ==> forall|j: int|
                            0 <= j < i ==> (#[trigger] q.pending[j]).uri != uri@,
                        found matches Some(x) ==> (match uri_from(q.pending, uri@, 0) {
                            Some(p) => q.pending[p].entry == x,
                            None => false,
                        }),
                    decreases pending@.len() - i,
                {
                    assert(pending@[i as int]@ == q.pending[i as int]);
                    if str_eq(pending[i].uri.as_str(), uri) {
                        proof {
                            lemma_uri_from(q.pending, uri@, 0);
                            match uri_from(q.pending, uri@, 0) {
                                Some(p) => {
                                    if p < i {
                                        assert(q.pending[p].uri != uri@);
                                    }
                                    if p > i {
                                        assert(q.pending[i as int].uri == uri@);
                                    }
                                },
                                None => {
                                    assert(q.pending[i as int].uri == uri@);
                                },
                            }
                        }
                        found = Some(pending[i].entry);
                    }
                    i = i + 1;
                }
                proof {
                    if found is None {
                        match uri_from(q.pending, uri@, 0) {
                            Some(p) => {
                                assert(q.pending[p].uri == uri@);
                            },
                            None => {},
                        }
                    }
                }
                found
            },
        };
        if claimed.is_some() && self.pushed == claimed {
            self.pushed = None;
        }
        claimed
    }

    /// Make the log say what the speaker is actually doing. Returns the
    /// rows to record, in order.
    ///
    /// A speaker with nothing active means whatever the log thinks is
    /// playing has ended; a pause reports as a playback state that is not
    /// playing, so no playback is genuinely "the speaker is done".
    pub fn reconcile(&mut self, queue: &Queue, playback: Option<&Playback>) -> (r: Vec<NewEvent>)
        ensures
            *final(self) == after_reconcile(
                *old(self),
                queue.model(),
                match playback {
                    Some(p) => Some(p@),
                    None => None,
                },
            ),
            reconcile_rows(
                r@,
                *old(self),
                queue.model(),
                match playback {
                    Some(p) => Some(p@),
                    None => None,
                },
            ),
    {
        let ghost q = queue.model();
        let ghost s = *self;
        let mut rows: Vec<NewEvent> = Vec::new();
        let playing = queue.now_playing();
        let state = match playback {
            Some(state) => state,
            None => {
                if let Some(old) = playing {
                    rows.push(skipped_event(old.entry, old.uri.as_str(), "finished"));
                }
                self.last_progress_ms = 0;
                return rows;
            },
        };
        let same_uri = match playing {
            Some(entry) => str_eq(entry.uri.as_str(), state.track.uri.as_str()),
            None => false,
        };
        // The same song queued twice changes nothing about the URI, so a
        // backwards jump in progress is the only evidence the second copy
        // has begun. Requiring a handed-over entry keeps a scrubbed rewind
        // from being mistaken for one.
        let replayed = same_uri && self.pushed.is_some() && (state.progress_ms as i128)
            + (REWIND_MS as i128) < (self.last_progress_ms as i128);
        if !same_uri || replayed {
            if let Some(old) = playing {
                rows.push(skipped_event(old.entry, old.uri.as_str(), "finished"));
            }
            let entry = self.claim(queue, state.track.uri.as_str());
            rows.push(started_event(state, entry));
        }
        self.last_progress_ms = state.progress_ms;
        rows
    }

    /// Decide about the track playing: skip it if the room has voted it
    /// out, unless a recent skip failed and this pass is to be sat out.
    pub fn playing_veto(&mut self, queue: &Queue, present: &[String]) -> (r: VetoStep)
        ensures
            *final(self) == after_veto_pass(*old(self), queue.model(), views(present@)),
            r is SitOut == sits_out(*old(self), queue.model(), views(present@)),
            match queue.model().now_playing {
                Some(e) => if skips_set(e.vetoes, views(present@)) {
                    if old(self).skip_backoff > 0 {
                        r is SitOut && *final(self) == (ConductorState {
                            skip_backoff: (old(self).skip_backoff - 1) as u32,
                            ..*old(self)
                        })
                    } else {
                        (r matches VetoStep::Skip { entry, uri } && entry == e.entry && uri@
                            == e.uri) && *final(self) == *old(self)
                    }
                } else {
                    r is Clear && *final(self) == *old(self)
                },
                None => r is Clear && *final(self) == *old(self),
            },
    {
        match queue.now_playing() {
            Some(playing) => {
                if should_skip(&playing.vetoes, present) {
                    // Sitting out a pass after a failure, so a source that
                    // is refusing does not get hammered into rate-limiting.
                    if self.skip_backoff > 0 {
                        self.skip_backoff = self.skip_backoff - 1;
                        VetoStep::SitOut
                    } else {
                        VetoStep::Skip { entry: playing.entry, uri: playing.uri.clone() }
                    }
                } else {
                    VetoStep::Clear
                }
            },
            None => VetoStep::Clear,
        }
    }

    /// What came of asking the source to skip a vetoed entry. On success,
    /// the row to record; on failure, nothing, and the next
    /// [`SKIP_BACKOFF_TICKS`] passes sit out. Either way the waiting tracks
    /// are dealt with only if the skip went through.
    ///
    /// The source is told first: recording a skip the speaker never
    /// performed would leave the log lying about the room.
    pub fn skip_result(&mut self, entry: i64, uri: &str, skipped: bool) -> (r: Option<NewEvent>)
        ensures
            skipped ==> *final(self) == (ConductorState {
                skip_backoff: 0,
                last_progress_ms: 0,
                ..*old(self)
            }) && (r matches Some(e) && skipped_row(e, entry, uri@, "vetoed"@)),
            !skipped ==> *final(self) == (ConductorState {
                skip_backoff: SKIP_BACKOFF_TICKS,
                ..*old(self)
            }) && r is None,
    {
        if skipped {
            self.skip_backoff = 0;
            self.last_progress_ms = 0;
            Some(skipped_event(entry, uri, "vetoed"))
        } else {
            self.skip_backoff = SKIP_BACKOFF_TICKS;
            None
        }
    }

    /// The rows dropping every waiting track the room has voted out, in
    /// queue order. The track already handed to the source is left alone:
    /// dropping it here would take it out of the queue while the source
    /// played it anyway.
    pub fn pending_vetoes(&self, queue: &Queue, present: &[String]) -> (r: Vec<NewEvent>)
        ensures
            r@.len() == vetoed_pending(queue.model(), self.pushed, views(present@)).len(),
            forall|i: int|
                0 <= i < r@.len() ==> skipped_row(
                    #[trigger] r@[i],
                    vetoed_pending(queue.model(), self.pushed, views(present@))[i].entry,
                    vetoed_pending(queue.model(), self.pushed, views(present@))[i].uri,
                    "vetoed"@,
                ),
    {
        let ghost q = queue.model();
        let ghost pred = |e: EntryModel| self.pushed != Some(e.entry) && skips_set(
            e.vetoes,
            views(present@),
        );
        let pending = queue.pending();
        let mut rows: Vec<NewEvent> = Vec::new();
        proof {
            crate::seqs::lemma_filter_nothing(q.pending, pred);
        }
        let mut i: usize = 0;
        while i < pending.len()
            invariant
                entry_models(pending@) == q.pending,
                pred == (|e: EntryModel| self.pushed != Some(e.entry) && skips_set(
                    e.vetoes,
                    views(present@),
                )),
                i <= pending@.len(),
                rows@.len() == q.pending.subrange(0, i as int).filter(pred).len(),
                forall|k: int|
                    0 <= k < rows@.len() ==> skipped_row(
                        #[trigger] rows@[k],
                        q.pending.subrange(0, i as int).filter(pred)[k].entry,
                        q.pending.subrange(0, i as int).filter(pred)[k].uri,
                        "vetoed"@,
                    ),
            decreases pending@.len() - i,
        {
            let entry = &pending[i];
            proof {
                crate::seqs::lemma_filter_prefix(q.pending, pred, i as int);
                assert(q.pending[i as int] == entry@);
            }
            let committed = match self.pushed {
                Some(id) => id == entry.entry,
                None => false,
            };
            if !committed && should_skip(&entry.vetoes, present) {
                let ghost prev = rows@;
                rows.push(skipped_event(entry.entry, entry.uri.as_str(), "vetoed"));
                proof {
                    let after = q.pending.subrange(0, i + 1).filter(pred);
                    let before = q.pending.subrange(0, i as int).filter(pred);
                    assert(after == before.push(entry@));
                    assert forall|k: int| 0 <= k < rows@.len() implies skipped_row(
                        #[trigger] rows@[k],
                        after[k].entry,
                        after[k].uri,
                        "vetoed"@,
                    ) by {
                        if k < prev.len() {
                            assert(rows@[k] == prev[k]);
                        }
                    }
                }
            }
            i = i + 1;
        }
        proof {
            crate::seqs::lemma_full_prefix(q.pending);
        }
        rows
    }

    /// Decide what to hand the source next: pre-push the successor near the
    /// end of a track so there is no gap at the seam, or start it when the
    /// speaker is silent. An empty queue is a correct outcome: a room that
    /// fills its own silence with recommendations is a different product.
    pub fn hand_over(&self, queue: &Queue, playback: Option<&Playback>) -> (r: Handover)
        ensures
            queue.model().pending.len() == 0 ==> r is Nothing,
            queue.model().pending.len() > 0 ==> {
                let next = queue.model().pending[0];
                match playback {
                    None => r matches Handover::Play { entry, uri } && entry == next.entry && uri@
                        == next.uri,
                    Some(p) => if p.is_playing && remaining(
                        p.track.duration_ms as int,
                        p.progress_ms as int,
                    ) <= PREPUSH_MS && self.pushed != Some(next.entry) {
                        r matches Handover::Enqueue { entry, uri } && entry == next.entry && uri@
                            == next.uri
                    } else {
                        r is Nothing
                    },
                }
            },
    {
        let next = match queue.next_up() {
            Some(next) => next,
            None => return Handover::Nothing,
        };
        match playback {
            Some(state) => {
                let left = (state.track.duration_ms as i128) - (state.progress_ms as i128);
                let near_end = left <= PREPUSH_MS as i128;
                let committed = match self.pushed {
                    Some(id) => id == next.entry,
                    None => false,
                };
                if state.is_playing && near_end && !committed {
                    Handover::Enqueue { entry: next.entry, uri: next.uri.clone() }
                } else {
                    Handover::Nothing
                }
            },
            // Enqueueing would append to a queue nothing is draining, and
            // the room would stay silent with a full queue.
            None => Handover::Play { entry: next.entry, uri: next.uri.clone() },
        }
    }

    /// The source accepted `entry`: it is committed, and will be claimed
    /// when it starts.
    pub fn handed_over(&mut self, entry: i64)
        ensures
            *final(self) == (ConductorState { pushed: Some(entry), ..*old(self) }),
    {
        self.pushed = Some(entry);
    }
}

/// The track handed to the source is never dropped for a veto while it
/// waits: it is committed, and is skipped once it starts instead.
pub proof fn lemma_committed_track_is_never_dropped(
    q: QueueModel,
    pushed: i64,
    present: Seq<Seq<char>>,
    i: int,
)
    requires
        0 <= i < vetoed_pending(q, Some(pushed), present).len(),
    ensures
        vetoed_pending(q, Some(pushed), present)[i].entry != pushed,
{
    broadcast use vstd::seq_lib::group_filter_ensures;

}

/// Whether a pass over `q` sits out the veto of the track playing: the room
/// has voted it out, but a recent skip failed.
pub open spec fn sits_out(s: ConductorState, q: QueueModel, present: Seq<Seq<char>>) -> bool {
    match q.now_playing {
        Some(e) => skips_set(e.vetoes, present) && s.skip_backoff > 0,
        None => false,
    }
}

/// The state one pass over `q` leaves behind, as far as the playing veto
/// goes.
pub open spec fn after_veto_pass(
    s: ConductorState,
    q: QueueModel,
    present: Seq<Seq<char>>,
) -> ConductorState {
    if sits_out(s, q, present) {
        ConductorState { skip_backoff: (s.skip_backoff - 1) as u32, ..s }
    } else {
        s
    }
}

/// The state `k` passes over `q` leave behind.
pub open spec fn veto_passes(
    s: ConductorState,
    q: QueueModel,
    present: Seq<Seq<char>>,
    k: nat,
) -> ConductorState
    decreases k,
{
    if k == 0 {
        s
    } else {
        after_veto_pass(veto_passes(s, q, present, (k - 1) as nat), q, present)
    }
}

/// A refused veto-skip is not retried for [`SKIP_BACKOFF_TICKS`] passes:
/// from the state a refused skip leaves behind, each of that many passes
/// that finds the vetoed track still playing sits out, and the one after
/// asks the source again.
pub proof fn lemma_refused_skip_backs_off(
    s: ConductorState,
    q: QueueModel,
    present: Seq<Seq<char>>,
    k: nat,
)
    requires
        s.skip_backoff == SKIP_BACKOFF_TICKS,
        q.now_playing is Some,
        skips_set(q.now_playing->0.vetoes, present),
        k <= SKIP_BACKOFF_TICKS,
    ensures
        veto_passes(s, q, present, k) == (ConductorState {
            skip_backoff: (SKIP_BACKOFF_TICKS - k) as u32,
            ..s
        }),
        k < SKIP_BACKOFF_TICKS ==> sits_out(veto_passes(s, q, present, k), q, present),
        k == SKIP_BACKOFF_TICKS ==> !sits_out(veto_passes(s, q, present, k), q, present),
    decreases k,
{
    if k > 0 {
        lemma_refused_skip_backs_off(s, q, present, (k - 1) as nat);
    }
}

/// Whether the entry handed over to the source exists and is for `uri`.
pub open spec fn handed_over(q: QueueModel, pushed: Option<i64>, uri: Seq<char>) -> bool {
    &&& pushed is Some
    &&& found_entry(q, pushed->0) is Some
    &&& found_entry(q, pushed->0)->0.uri == uri
}

/// Which entry a track the speaker started claims: the entry handed over,
/// when it is that track; otherwise the first entry waiting for that track,
/// so that a track started cold (after a restart, with nothing handed over)
/// still moves its queued entry to playing; and none only when nobody here
/// queued it.
pub proof fn lemma_a_started_track_claims_its_entry(
    q: QueueModel,
    pushed: Option<i64>,
    uri: Seq<char>,
)
    ensures
        handed_over(q, pushed, uri) ==> claim_spec(q, pushed, uri) == pushed,
        forall|i: int|
            0 <= i < q.pending.len() && (#[trigger] q.pending[i]).uri == uri && (forall|j: int|
                0 <= j < i ==> q.pending[j].uri != uri) && !handed_over(q, pushed, uri)
                ==> claim_spec(q, pushed, uri) == Some(q.pending[i].entry),
        (forall|i: int| 0 <= i < q.pending.len() ==> (#[trigger] q.pending[i]).uri != uri)
            && !handed_over(q, pushed, uri) ==> claim_spec(q, pushed, uri) is None,
{
    lemma_uri_from(q.pending, uri, 0);
    assert forall|i: int|
        0 <= i < q.pending.len() && (#[trigger] q.pending[i]).uri == uri && (forall|j: int|
            0 <= j < i ==> q.pending[j].uri != uri) && !handed_over(q, pushed, uri)
            implies claim_spec(q, pushed, uri) == Some(q.pending[i].entry) by {
        match uri_from(q.pending, uri, 0) {
            Some(p) => {
                if p < i {
                    assert(q.pending[p].uri != uri);
                } else if p > i {
                    assert(q.pending[i].uri != uri);
                }
            },
            None => {
                assert(q.pending[i].uri != uri);
            },
        }
    }
}

/// When the speaker shows a track the log does not have playing, and that
/// track waits in the queue with nothing handed over for it (a cold start,
/// say after a restart), the rows a reconcile writes end with the start of
/// the first waiting entry for that track, by its id, and nothing is left
/// handed over in its name.
pub proof fn lemma_a_cold_start_claims_the_first_waiting_entry(
    rows: Seq<NewEvent>,
    s: ConductorState,
    q: QueueModel,
    p: PlaybackModel,
    i: int,
)
    requires
        reconcile_rows(rows, s, q, Some(p)),
        !(q.now_playing matches Some(e) && e.uri == p.track.uri),
        !handed_over(q, s.pushed, p.track.uri),
        0 <= i < q.pending.len(),
        q.pending[i].uri == p.track.uri,
        forall|j: int| 0 <= j < i ==> q.pending[j].uri != p.track.uri,
    ensures
        rows.len() >= 1,
        started_row(rows[rows.len() - 1], p, Some(q.pending[i].entry)),
{
    lemma_a_started_track_claims_its_entry(q, s.pushed, p.track.uri);
    assert(q.pending[i].uri == p.track.uri);
}

} // verus!
