//! The shared music queue, derived entirely from the log.
//!
//! SESH keeps the authoritative queue here and hands the source exactly one
//! track at a time: the source's own queue can be added to but not reordered
//! or emptied, so pushing the whole queue would make veto impossible.
//!
//! Being a projection, **the queue survives a restart**.
//!
//! ## Entries are keyed by event id, not track URI
//!
//! `subject` carries the track URI so the log reads naturally, but a queue
//! entry's identity is `payload.entry` — the id of the `music.queued` event
//! that created it. Two people queueing the same song is not an edge case on
//! a shared-queue night, and keying on the URI would silently merge their two
//! entries into one, so vetoing either would kill both.

use vstd::prelude::*;

use crate::event::{kind, opt_view, Event};
use crate::json::{field_i64, field_str};
use crate::projection::{fold, rebuild, Projection};
use crate::strset::{views, StrSet};
use crate::text::str_eq;

verus! {

/// One track in the queue, or the one playing.
#[derive(Debug, PartialEq, Eq)]
pub struct Entry {
    /// Id of the `music.queued` event that created this entry. Stable, unique
    /// even when the same track is queued twice, and assigned by the log.
    pub entry: i64,
    /// Track URI.
    pub uri: String,
    /// Track title, as it was when queued.
    pub title: String,
    /// Artist, as it was when queued.
    pub artist: String,
    /// Length in milliseconds. Zero when unknown.
    pub duration_ms: i64,
    /// Who added it. `None` for a track SESH did not queue itself.
    pub added_by: Option<String>,
    /// Who has voted to skip it, deduplicated by person.
    pub vetoes: StrSet,
}

/// What an entry means.
pub struct EntryModel {
    /// The entry's id.
    pub entry: i64,
    /// Track URI.
    pub uri: Seq<char>,
    /// Track title.
    pub title: Seq<char>,
    /// Artist.
    pub artist: Seq<char>,
    /// Length in milliseconds.
    pub duration_ms: i64,
    /// Who added it.
    pub added_by: Option<Seq<char>>,
    /// Who has voted to skip it.
    pub vetoes: Set<Seq<char>>,
}

impl View for Entry {
    type V = EntryModel;

    open spec fn view(&self) -> EntryModel {
        EntryModel {
            entry: self.entry,
            uri: self.uri@,
            title: self.title@,
            artist: self.artist@,
            duration_ms: self.duration_ms,
            added_by: opt_view(self.added_by),
            vetoes: self.vetoes@.to_set(),
        }
    }
}

/// What the queue means: what is waiting, in order, and what is playing.
pub struct QueueModel {
    /// Tracks waiting, in the order they were added.
    pub pending: Seq<EntryModel>,
    /// What is playing, if anything.
    pub now_playing: Option<EntryModel>,
}

/// The entry an event introduces. Metadata is best-effort: a missing title
/// is empty, a missing length is zero, and nobody has voted yet.
pub open spec fn entry_from(
    e: Event,
    uri: Seq<char>,
    entry: i64,
    added_by: Option<Seq<char>>,
) -> EntryModel {
    EntryModel {
        entry,
        uri,
        title: match field_str(e.payload, "title"@) {
            Some(t) => t,
            None => Seq::empty(),
        },
        artist: match field_str(e.payload, "artist"@) {
            Some(a) => a,
            None => Seq::empty(),
        },
        duration_ms: match field_i64(e.payload, "duration_ms"@) {
            Some(d) => d,
            None => 0,
        },
        added_by,
        vetoes: Set::empty(),
    }
}

/// The first person an event names.
pub open spec fn first_actor(e: Event) -> Option<Seq<char>> {
    if e.actors@.len() > 0 {
        Some(e.actors@[0]@)
    } else {
        None
    }
}

/// The position of the first entry from `i` on with id `id`.
pub open spec fn position_from(s: Seq<EntryModel>, id: i64, i: int) -> Option<int>
    decreases s.len() - i,
{
    if i < 0 || i >= s.len() {
        None
    } else if s[i].entry == id {
        Some(i)
    } else {
        position_from(s, id, i + 1)
    }
}

/// The position of the first entry with id `id`.
pub open spec fn position_of(s: Seq<EntryModel>, id: i64) -> Option<int> {
    position_from(s, id, 0)
}

/// `m` with `voter` added to its vetoes.
pub open spec fn with_vote(m: EntryModel, voter: Seq<char>) -> EntryModel {
    EntryModel { vetoes: m.vetoes.insert(voter), ..m }
}

/// Whether the entry playing has id `id`.
pub open spec fn playing_is(q: QueueModel, id: i64) -> bool {
    q.now_playing matches Some(p) && p.entry == id
}

/// How one event moves the queue.
///
/// - `music.queued` with a track appends an entry whose id is the event's
///   own id, added by the event's first actor.
/// - `music.started` promotes the waiting entry it names; a track nobody
///   queued becomes what is playing anyway, under the id the event names or
///   else its own. An event naming no track leaves the queue alone.
/// - `music.skipped` drops the entry it names, playing or waiting.
/// - `music.vetoed` adds its first actor's vote to the entry it names; a
///   vote for an entry that is gone is dropped.
pub open spec fn queue_step(q: QueueModel, e: Event) -> QueueModel {
    if e.kind@ == kind::MUSIC_QUEUED@ {
        match e.subject {
            Some(uri) => QueueModel {
                pending: q.pending.push(entry_from(e, uri@, e.id, first_actor(e))),
                now_playing: q.now_playing,
            },
            None => q,
        }
    } else if e.kind@ == kind::MUSIC_STARTED@ {
        let referenced = field_i64(e.payload, "entry"@);
        let taken = match referenced {
            Some(x) => position_of(q.pending, x),
            None => None,
        };
        match taken {
            Some(i) => QueueModel { pending: q.pending.remove(i), now_playing: Some(q.pending[i]) },
            None => match e.subject {
                Some(uri) => QueueModel {
                    pending: q.pending,
                    now_playing: Some(
                        entry_from(
                            e,
                            uri@,
                            match referenced {
                                Some(x) => x,
                                None => e.id,
                            },
                            None,
                        ),
                    ),
                },
                None => q,
            },
        }
    } else if e.kind@ == kind::MUSIC_SKIPPED@ {
        match field_i64(e.payload, "entry"@) {
            Some(x) => if playing_is(q, x) {
                QueueModel { pending: q.pending, now_playing: None }
            } else {
                match position_of(q.pending, x) {
                    Some(i) => QueueModel { pending: q.pending.remove(i), now_playing: q.now_playing },
                    None => q,
                }
            },
            None => q,
        }
    } else if e.kind@ == kind::MUSIC_VETOED@ {
        match (field_i64(e.payload, "entry"@), first_actor(e)) {
            (Some(x), Some(voter)) => match position_of(q.pending, x) {
                Some(i) => QueueModel {
                    pending: q.pending.update(i, with_vote(q.pending[i], voter)),
                    now_playing: q.now_playing,
                },
                None => if playing_is(q, x) {
                    QueueModel {
                        pending: q.pending,
                        now_playing: Some(with_vote(q.now_playing->0, voter)),
                    }
                } else {
                    q
                },
            },
            _ => q,
        }
    } else {
        q
    }
}

/// The models of a list of entries.
pub open spec fn entry_models(v: Seq<Entry>) -> Seq<EntryModel> {
    v.map_values(|e: Entry| e@)
}

/// The model of an optional entry.
pub open spec fn opt_entry(e: Option<Entry>) -> Option<EntryModel> {
    match e {
        Some(e) => Some(e@),
        None => None,
    }
}

/// What is playing and what is waiting.
#[derive(Debug, PartialEq, Eq)]
pub struct Queue {
    pending: Vec<Entry>,
    now_playing: Option<Entry>,
}

proof fn lemma_position_from(s: Seq<EntryModel>, id: i64, i: int)
    requires
        0 <= i <= s.len(),
    ensures
        match position_from(s, id, i) {
            Some(p) => i <= p < s.len() && s[p].entry == id && forall|j: int|
                i <= j < p ==> (#[trigger] s[j]).entry != id,
            None => forall|j: int| i <= j < s.len() ==> (#[trigger] s[j]).entry != id,
        },
    decreases s.len() - i,
{
    if i < s.len() && s[i].entry != id {
        lemma_position_from(s, id, i + 1);
    }
}

/// The first position holding `id` is unique: if `p` holds it and nothing
/// before `p` does, `p` is that position.
proof fn lemma_position_is(s: Seq<EntryModel>, id: i64, p: int)
    requires
        0 <= p < s.len(),
        s[p].entry == id,
        forall|j: int| 0 <= j < p ==> (#[trigger] s[j]).entry != id,
    ensures
        position_of(s, id) == Some(p),
{
    lemma_position_from(s, id, 0);
    match position_of(s, id) {
        Some(q) => {
            if q < p {
                assert(s[q].entry != id);
            } else if q > p {
                assert(s[p].entry != id);
            }
        },
        None => {
            assert(s[p].entry != id);
        },
    }
}

impl Entry {
    /// Build an entry from the event that introduced the track.
    ///
    /// Metadata is best-effort: a track with no title still plays, and a
    /// projection that refused to fold a thin event would make the log
    /// unrebuildable — the one thing it must never be.
    fn from_event(event: &Event, uri: &String, entry: i64, added_by: Option<String>) -> (r: Self)
        ensures
            r@ == entry_from(*event, uri@, entry, opt_view(added_by)),
    {
        let title = match event.payload.get_str("title") {
            Some(t) => t,
            None => String::new(),
        };
        let artist = match event.payload.get_str("artist") {
            Some(a) => a,
            None => String::new(),
        };
        let duration_ms = match event.payload.get_i64("duration_ms") {
            Some(d) => d,
            None => 0,
        };
        let vetoes = StrSet::new();
        let r = Entry {
            entry,
            uri: uri.clone(),
            title,
            artist,
            duration_ms,
            added_by,
            vetoes,
        };
        assert(r.vetoes@.to_set() =~= Set::<Seq<char>>::empty());
        r
    }
}

impl Entry {
    /// A copy of this entry.
    pub fn duplicate(&self) -> (r: Entry)
        ensures
            r@ == self@,
    {
        Entry {
            entry: self.entry,
            uri: self.uri.clone(),
            title: self.title.clone(),
            artist: self.artist.clone(),
            duration_ms: self.duration_ms,
            added_by: crate::event::clone_opt(&self.added_by),
            vetoes: self.vetoes.duplicate(),
        }
    }
}

impl Queue {
    /// Tracks waiting, in the order they were added.
    pub fn pending(&self) -> (r: &[Entry])
        ensures
            entry_models(r@) == self.model().pending,
    {
        self.pending.as_slice()
    }

    /// What is playing, if anything.
    pub fn now_playing(&self) -> (r: Option<&Entry>)
        ensures
            match r {
                Some(e) => self.model().now_playing == Some(e@),
                None => self.model().now_playing is None,
            },
    {
        self.now_playing.as_ref()
    }

    /// The track the conductor should hand the source next: the first one
    /// waiting.
    pub fn next_up(&self) -> (r: Option<&Entry>)
        ensures
            match r {
                Some(e) => self.model().pending.len() > 0 && e@ == self.model().pending[0],
                None => self.model().pending.len() == 0,
            },
    {
        if self.pending.len() > 0 {
            Some(&self.pending[0])
        } else {
            None
        }
    }

    /// Where the first waiting entry with id `entry` sits.
    fn position(&self, entry: i64) -> (r: Option<usize>)
        ensures
            match r {
                Some(i) => position_of(self.model().pending, entry) == Some(i as int) && i
                    < self.pending@.len(),
                None => position_of(self.model().pending, entry) is None,
            },
    {
        let ghost m = self.model().pending;
        proof {
            lemma_position_from(m, entry, 0);
        }
        let mut i: usize = 0;
        while i < self.pending.len()
            invariant
                m == entry_models(self.pending@),
                i <= self.pending@.len(),
                forall|j: int| 0 <= j < i ==> (#[trigger] m[j]).entry != entry,
            decreases self.pending@.len() - i,
        {
            if self.pending[i].entry == entry {
                proof {
                    assert(m[i as int].entry == entry);
                    lemma_position_is(m, entry, i as int);
                }
                return Some(i);
            }
            assert(m[i as int].entry != entry);
            i = i + 1;
        }
        proof {
            lemma_position_from(m, entry, 0);
            if position_of(m, entry) is Some {
                let p = position_of(m, entry)->0;
                assert(m[p].entry == entry);
            }
        }
        None
    }

    /// Find an entry by id, whether it is waiting or playing. A waiting entry
    /// is found first.
    pub fn find(&self, entry: i64) -> (r: Option<&Entry>)
        ensures
            match position_of(self.model().pending, entry) {
                Some(i) => r matches Some(e) && e@ == self.model().pending[i],
                None => if playing_is(self.model(), entry) {
                    r matches Some(e) && Some(e@) == self.model().now_playing
                } else {
                    r is None
                },
            },
    {
        proof {
            lemma_position_from(self.model().pending, entry, 0);
        }
        match self.position(entry) {
            Some(i) => {
                assert(position_of(self.model().pending, entry) == Some(i as int));
                assert(self.pending@[i as int]@ == self.model().pending[i as int]);
                Some(&self.pending[i])
            },
            None => match &self.now_playing {
                Some(playing) => if playing.entry == entry {
                    Some(playing)
                } else {
                    None
                },
                None => None,
            },
        }
    }

    /// Remove a waiting entry by id and hand it back.
    fn take_pending(&mut self, entry: i64) -> (r: Option<Entry>)
        ensures
            match position_of(old(self).model().pending, entry) {
                Some(i) => r matches Some(e) && e@ == old(self).model().pending[i]
                    && final(self).model().pending == old(self).model().pending.remove(i),
                None => r is None && final(self).model().pending == old(self).model().pending,
            },
            final(self).model().now_playing == old(self).model().now_playing,
    {
        proof {
            lemma_position_from(self.model().pending, entry, 0);
        }
        match self.position(entry) {
            Some(i) => {
                let ghost before = self.pending@;
                assert(position_of(entry_models(before), entry) == Some(i as int));
                let taken = self.pending.remove(i);
                assert(taken@ == entry_models(before)[i as int]);
                assert(entry_models(self.pending@) =~= entry_models(before).remove(i as int));
                Some(taken)
            },
            None => None,
        }
    }

    /// A snapshot of this queue.
    pub fn duplicate(&self) -> (r: Queue)
        ensures
            r.model() == self.model(),
    {
        let mut pending: Vec<Entry> = Vec::new();
        let mut i: usize = 0;
        while i < self.pending.len()
            invariant
                i <= self.pending@.len(),
                entry_models(pending@) == entry_models(self.pending@).subrange(0, i as int),
            decreases self.pending@.len() - i,
        {
            let e = self.pending[i].duplicate();
            let ghost prev = pending@;
            pending.push(e);
            assert(entry_models(pending@) =~= entry_models(prev).push(e@));
            i = i + 1;
            assert(entry_models(pending@) =~= entry_models(self.pending@).subrange(0, i as int));
        }
        assert(entry_models(self.pending@).subrange(0, self.pending@.len() as int) =~= entry_models(
            self.pending@,
        ));
        let now_playing = match &self.now_playing {
            Some(e) => Some(e.duplicate()),
            None => None,
        };
        Queue { pending, now_playing }
    }

    /// The queue a log implies.
    pub fn rebuild(events: &[Event]) -> (r: Self)
        ensures
            r.model() == fold::<Queue>(events@),
    {
        rebuild::<Queue>(events)
    }

    /// An empty queue.
    pub fn default() -> (r: Self)
        ensures
            r.model() == Queue::initial(),
    {
        Self::empty()
    }
}

impl Projection for Queue {
    type Model = QueueModel;

    closed spec fn model(&self) -> QueueModel {
        QueueModel { pending: entry_models(self.pending@), now_playing: opt_entry(self.now_playing) }
    }

    open spec fn initial() -> QueueModel {
        QueueModel { pending: Seq::empty(), now_playing: None }
    }

    open spec fn step(m: QueueModel, e: Event) -> QueueModel {
        queue_step(m, e)
    }

    fn empty() -> (r: Self) {
        let r = Queue { pending: Vec::new(), now_playing: None };
        assert(entry_models(r.pending@) =~= Seq::<EntryModel>::empty());
        r
    }

    fn apply(&mut self, event: &Event) {
        let ghost q = self.model();
        if str_eq(event.kind.as_str(), kind::MUSIC_QUEUED) {
            // No track means nothing to play. The entry id is this event's
            // own id, which is what makes two copies of one song distinct.
            let uri = match &event.subject {
                Some(uri) => uri,
                None => return ,
            };
            let added_by = if event.actors.len() > 0 {
                Some(event.actors[0].clone())
            } else {
                None
            };
            let entry = Entry::from_event(event, uri, event.id, added_by);
            let ghost before = self.pending@;
            self.pending.push(entry);
            assert(entry_models(self.pending@) =~= entry_models(before).push(entry@));
        } else if str_eq(event.kind.as_str(), kind::MUSIC_STARTED) {
            let referenced = event.payload.get_i64("entry");
            let promoted = match referenced {
                Some(x) => self.take_pending(x),
                None => None,
            };
            // Falling back to the event itself is what lets the log say so
            // when a track is playing that SESH never queued.
            let starting = match promoted {
                Some(e) => Some(e),
                None => match &event.subject {
                    Some(uri) => {
                        let id = match referenced {
                            Some(x) => x,
                            None => event.id,
                        };
                        Some(Entry::from_event(event, uri, id, None))
                    },
                    None => None,
                },
            };
            // Only replace what is playing if this event actually named a
            // track; a malformed event must not silently empty the card.
            if let Some(starting) = starting {
                self.now_playing = Some(starting);
            }
        } else if str_eq(event.kind.as_str(), kind::MUSIC_SKIPPED) {
            // One rule for both "vetoed before it ever played" and "skipped
            // while playing", which is why there is no second kind for drops.
            let entry = match event.payload.get_i64("entry") {
                Some(x) => x,
                None => return ,
            };
            let is_playing = match &self.now_playing {
                Some(playing) => playing.entry == entry,
                None => false,
            };
            if is_playing {
                self.now_playing = None;
            } else {
                let _ = self.take_pending(entry);
            }
        } else if str_eq(event.kind.as_str(), kind::MUSIC_VETOED) {
            let entry = match event.payload.get_i64("entry") {
                Some(x) => x,
                None => return ,
            };
            if event.actors.len() == 0 {
                return ;
            }
            let voter = &event.actors[0];
            // A veto naming an entry that is already gone is dropped: the
            // vote raced the skip it was asking for and simply lost.
            match self.position(entry) {
                Some(i) => {
                    let ghost before = self.pending@;
                    let mut target = self.pending.remove(i);
                    target.vetoes.insert(voter.clone());
                    self.pending.insert(i, target);
                    assert(entry_models(self.pending@) =~= entry_models(before).update(
                        i as int,
                        with_vote(before[i as int]@, voter@),
                    ));
                },
                None => {
                    let mut playing = match self.now_playing.take() {
                        Some(p) => p,
                        None => return ,
                    };
                    if playing.entry == entry {
                        playing.vetoes.insert(voter.clone());
                    }
                    self.now_playing = Some(playing);
                },
            }
        }
    }
}

/// A vote touches only the entry it names: every other waiting entry, and
/// the playing one unless it is the one named, is left as it was. The same
/// song queued twice is two entries, and a vote for one copy is not a vote
/// for the other.
pub proof fn lemma_a_vote_touches_only_its_entry(q: QueueModel, e: Event, x: i64)
    requires
        e.kind@ == kind::MUSIC_VETOED@,
        field_i64(e.payload, "entry"@) == Some(x),
    ensures
        queue_step(q, e).pending.len() == q.pending.len(),
        forall|j: int|
            0 <= j < q.pending.len() && (#[trigger] q.pending[j]).entry != x ==> queue_step(
                q,
                e,
            ).pending[j] == q.pending[j],
        !playing_is(q, x) ==> queue_step(q, e).now_playing == q.now_playing,
{
    lemma_position_from(q.pending, x, 0);
    kind::lemma_music_kinds_differ();
}

} // verus!
