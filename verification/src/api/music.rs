//! The shared queue over HTTP: what a phone may ask for, and what it is
//! told.
//!
//! Nothing here plays anything: this records what the room decided, and the
//! conductor is what makes the speaker agree with it.

use vstd::prelude::*;

use crate::event::{kind, NewEvent};
use crate::json::Value;
use crate::projection::Projection;
use crate::projections::queue::{entry_models, opt_entry, position_of, playing_is, Entry, Queue};
use crate::strset::views;
use crate::text::{byte_len, owned, trim, trimmed};
use crate::veto::{counted, lemma_counted_by_set, needed, needed_for, present_voters};
use crate::conductor::found_entry;

verus! {

/// Longest track URI accepted, in bytes. Generous next to a Spotify URI, and
/// bounded so the open-ish ingest surface cannot store arbitrary blobs.
pub const MAX_URI_LEN: usize = 300;

/// Longest title or artist kept, in characters.
pub const MAX_TEXT_LEN: usize = 200;

/// Longest search query accepted, in bytes.
pub const MAX_QUERY_LEN: usize = 200;

/// The whole queue, plus what a veto currently costs.
#[derive(Debug)]
pub struct MusicResponse {
    /// What is playing, if anything.
    pub now_playing: Option<Entry>,
    /// What is waiting, in order.
    pub pending: Vec<Entry>,
    /// Who is in the room — the denominator for a veto.
    pub present: Vec<String>,
    /// Votes needed to skip a track right now.
    pub needed: usize,
    /// `ok` when the music source is answering, `offline` when it is not.
    ///
    /// The queue keeps accepting tracks either way, but the surface needs to
    /// be able to say so rather than implying silence is a choice somebody
    /// made.
    pub player: &'static str,
}

/// What to look for.
#[derive(Debug)]
pub struct SearchRequest {
    /// The search text, as typed.
    pub q: String,
}

/// A track someone wants to hear.
#[derive(Debug)]
pub struct QueueRequest {
    /// Track URI, e.g. `spotify:track:...`.
    pub uri: String,
    /// Track title.
    pub title: String,
    /// Artist name.
    pub artist: String,
    /// Length in milliseconds, if known.
    pub duration_ms: i64,
}

/// Confirmation that a track is in the queue.
#[derive(Debug)]
pub struct QueuedResponse {
    /// The new entry's id — what a veto refers to.
    pub entry: i64,
}

/// A vote to skip.
#[derive(Debug)]
pub struct VetoRequest {
    /// Which queue entry. Not the track URI: the same song can be in the
    /// queue twice and the two are vetoed separately.
    pub entry: i64,
}

/// Where a track's vote count stands after a vote.
#[derive(Debug)]
pub struct VetoResponse {
    /// Votes cast by people who are still here.
    pub votes: usize,
    /// Votes needed to skip.
    pub needed: usize,
    /// Whether that threshold is now met.
    pub carried: bool,
}

impl MusicResponse {
    /// The queue as the phones see it.
    pub fn of(queue: &Queue, present: Vec<String>, player: &'static str) -> (r: MusicResponse)
        ensures
            opt_entry_view(r.now_playing) == queue.model().now_playing,
            entry_models(r.pending@) == queue.model().pending,
            views(r.present@) == views(present@),
            r.needed == needed_for(present@.len()),
            r.player == player,
    {
        let now_playing = match queue.now_playing() {
            Some(e) => Some(e.duplicate()),
            None => None,
        };
        let waiting = queue.pending();
        let mut pending: Vec<Entry> = Vec::new();
        let mut i: usize = 0;
        while i < waiting.len()
            invariant
                i <= waiting@.len(),
                entry_models(pending@) == entry_models(waiting@).subrange(0, i as int),
            decreases waiting@.len() - i,
        {
            let e = waiting[i].duplicate();
            let ghost prev = pending@;
            pending.push(e);
            assert(entry_models(pending@) =~= entry_models(prev).push(e@));
            i = i + 1;
            assert(entry_models(pending@) =~= entry_models(waiting@).subrange(0, i as int));
        }
        assert(entry_models(waiting@).subrange(0, waiting@.len() as int) =~= entry_models(waiting@));
        let needed = needed(present.as_slice());
        MusicResponse { now_playing, pending, present, needed, player }
    }
}

/// The model of an optional entry.
pub open spec fn opt_entry_view(e: Option<Entry>) -> Option<crate::projections::queue::EntryModel> {
    match e {
        Some(e) => Some(e@),
        None => None,
    }
}

/// A query, trimmed, if it is acceptable: not empty and no longer than
/// [`MAX_QUERY_LEN`] bytes.
pub fn search_query(q: &str) -> (r: Option<&str>)
    ensures
        match r {
            Some(t) => t@ == trimmed(q@) && t@.len() > 0 && byte_len(t@) <= MAX_QUERY_LEN,
            None => trimmed(q@).len() == 0 || byte_len(trimmed(q@)) > MAX_QUERY_LEN,
        },
{
    let t = trim(q);
    if t.unicode_len() == 0 || t.len() > MAX_QUERY_LEN {
        None
    } else {
        Some(t)
    }
}

/// A track URI, trimmed, if it is acceptable: not empty and no longer than
/// [`MAX_URI_LEN`] bytes. Deliberately not checked for a `spotify:` prefix:
/// the log is meant to outlive this choice of music source.
pub fn queue_uri(uri: &str) -> (r: Option<&str>)
    ensures
        match r {
            Some(t) => t@ == trimmed(uri@) && t@.len() > 0 && byte_len(t@) <= MAX_URI_LEN,
            None => trimmed(uri@).len() == 0 || byte_len(trimmed(uri@)) > MAX_URI_LEN,
        },
{
    let t = trim(uri);
    if t.unicode_len() == 0 || t.len() > MAX_URI_LEN {
        None
    } else {
        Some(t)
    }
}

/// The first [`MAX_TEXT_LEN`] characters of `text`.
pub open spec fn clamped(text: Seq<char>) -> Seq<char> {
    if text.len() <= MAX_TEXT_LEN {
        text
    } else {
        text.subrange(0, MAX_TEXT_LEN as int)
    }
}

/// Keep free-form metadata to a sane length before it enters the log
/// forever.
pub fn clamp(text: &str) -> (r: String)
    ensures
        r@ == clamped(text@),
{
    let n = text.unicode_len();
    let end = if n <= MAX_TEXT_LEN {
        n
    } else {
        MAX_TEXT_LEN
    };
    owned(text.substring_char(0, end))
}

/// The row recording that `person` queued `uri`: its metadata clamped, a
/// negative length read as unknown.
pub fn queued_event(person: &str, uri: &str, request: &QueueRequest) -> (r: NewEvent)
    ensures
        r.kind@ == kind::MUSIC_QUEUED@,
        views(r.actors@) == seq![person@],
        crate::event::opt_view(r.subject) == Some(uri@),
        r.payload matches Value::Object(m) && m@.len() == 3 && m@[0].0@ == "title"@ && (m@[0].1 matches Value::Str(t)
            && t@ == clamped(request.title@)) && m@[1].0@ == "artist"@ && (m@[1].1 matches Value::Str(a)
            && a@ == clamped(request.artist@)) && m@[2].0@ == "duration_ms"@ && m@[2].1
            == Value::Int(if request.duration_ms > 0 {
            request.duration_ms
        } else {
            0
        }),
{
    let duration = if request.duration_ms > 0 {
        request.duration_ms
    } else {
        0
    };
    let members = vec![
        (owned("title"), Value::Str(clamp(request.title.as_str()))),
        (owned("artist"), Value::Str(clamp(request.artist.as_str()))),
        (owned("duration_ms"), Value::Int(duration)),
    ];
    let r = NewEvent::new(kind::MUSIC_QUEUED).actor(person).subject(uri).payload(
        Value::Object(members),
    );
    assert(views(r.actors@) =~= seq![person@]);
    r
}

/// The track a veto for `entry` is about, if the entry is in the queue.
/// Read before voting, both to refuse a vote for something that is not
/// there and to put the track on the row.
pub fn veto_target(queue: &Queue, entry: i64) -> (r: Option<String>)
    ensures
        match found_entry(queue.model(), entry) {
            Some(e) => r matches Some(u) && u@ == e.uri,
            None => r is None,
        },
{
    match queue.find(entry) {
        Some(e) => Some(e.uri.clone()),
        None => None,
    }
}

/// The row recording that `person` voted to skip `entry`, track `uri`.
pub fn vetoed_event(person: &str, uri: &str, entry: i64) -> (r: NewEvent)
    ensures
        r.kind@ == kind::MUSIC_VETOED@,
        views(r.actors@) == seq![person@],
        crate::event::opt_view(r.subject) == Some(uri@),
        r.payload matches Value::Object(m) && m@.len() == 1 && m@[0].0@ == "entry"@ && m@[0].1
            == Value::Int(entry),
{
    let members = vec![(owned("entry"), Value::Int(entry))];
    let r = NewEvent::new(kind::MUSIC_VETOED).actor(person).subject(uri).payload(
        Value::Object(members),
    );
    assert(views(r.actors@) =~= seq![person@]);
    r
}

/// Where `entry`'s vote count stands: the votes of people still here, the
/// votes needed, and whether they are enough. An entry that is gone has no
/// votes.
pub fn veto_tally(queue: &Queue, entry: i64, present: &[String]) -> (r: VetoResponse)
    ensures
        r.needed == needed_for(present@.len()),
        r.carried == (r.votes >= r.needed),
        match found_entry(queue.model(), entry) {
            Some(e) => r.votes == present_voters(e.vetoes, views(present@)).len(),
            None => r.votes == 0,
        },
{
    let votes = match queue.find(entry) {
        Some(e) => {
            let n = e.vetoes.len();
            proof {
                lemma_counted_by_set(e.vetoes@, views(present@));
            }
            counted(&e.vetoes, present)
        },
        None => 0,
    };
    let needed = needed(present);
    VetoResponse { votes, needed, carried: votes >= needed }
}

} // verus!
