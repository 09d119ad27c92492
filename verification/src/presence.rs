//! Who is in the room, inferred from phones.
//!
//! Veto needs a denominator — a majority *of whom*. Rather than invent a
//! second notion of who is here, phones heartbeat and this tracker turns
//! those beats into the same `presence.arrived` / `presence.left` events the
//! roster projection already folds.
//!
//! Events are emitted on **transitions only**. A phone beating every few
//! seconds all evening produces two rows, not hundreds — the log records
//! that someone was here, not that they were still here, again, and again.
//! Every row this tracker writes says it came from a heartbeat (see
//! [`via`]).

pub mod via;
pub mod fusion;
pub mod ble;

use vstd::prelude::*;

use crate::event::{kind, NewEvent};
use crate::seqs::{lemma_filter_nothing, lemma_filter_prefix, lemma_full_prefix};
use crate::strmap::{
    insert_spec, keys_of, lemma_filter_sorted, lemma_insert_spec, lemma_lookup_absent,
    lemma_lookup_at, lookup, sorted_keys, StrMap,
};
use crate::strset::{lemma_keys_ascending, sorted_strs, views};
use crate::text::{lemma_lex_irreflexive, lex_lt};
use via::{via_payload, via_payload_for, via_text, Via, ViaModel};

verus! {

/// How long a phone may go quiet before its owner is considered gone: ten
/// minutes.
///
/// Generous on purpose. A phone that locks its screen, drops to a dozing
/// radio, or loses Wi-Fi for a minute has not left the room, and a roster
/// that flaps would make veto thresholds move under people mid-vote.
pub const WINDOW_MS: i64 = 600_000;

/// How long since a phone last beat before its owner stops counting as
/// *paying attention*: ninety seconds.
///
/// Deliberately a small fraction of [`WINDOW_MS`], because these answer
/// different questions. Attention is "is this person looking at SESH right
/// now"; presence is "is this person in the room tonight".
pub const ATTENTION_MS: i64 = 90_000;

/// What the tracker knows of one person.
#[derive(Debug, Clone, Copy, PartialEq, Eq, Structural)]
pub struct Seen {
    /// When their phone last beat.
    pub last_ms: i64,
    /// Whether the tracker has announced them and not yet retired them.
    pub present: bool,
}

/// Person to what the tracker knows of them, in id order.
pub type Beats = Seq<(Seq<char>, Seen)>;

/// Whether `e` is a presence row of this tracker: the given kind, about
/// `person` alone, naming no subject, saying it came from a heartbeat.
pub open spec fn heartbeat_row(e: NewEvent, kind: Seq<char>, person: Seq<char>) -> bool {
    &&& e.kind@ == kind
    &&& views(e.actors@) == seq![person]
    &&& e.subject is None
    &&& via_payload(e.payload, "heartbeat"@)
}

/// Whether an entry beat, announced, within `span` of `now`.
pub open spec fn beating_within(e: (Seq<char>, Seen), now: int, span: int) -> bool {
    e.1.present && now - e.1.last_ms < span
}

/// The people that beat within `span` of `now` and are announced, in id
/// order.
pub open spec fn beating(m: Beats, now: int, span: int) -> Seq<Seq<char>> {
    m.filter(|e: (Seq<char>, Seen)| beating_within(e, now, span)).map_values(
        |e: (Seq<char>, Seen)| e.0,
    )
}

/// Whether an entry is announced but has gone quiet for a full window.
pub open spec fn gone_quiet(e: (Seq<char>, Seen), now: int) -> bool {
    e.1.present && now - e.1.last_ms >= WINDOW_MS
}

/// An entry after a sweep at `now`: retired if it has gone quiet.
pub open spec fn swept(e: (Seq<char>, Seen), now: int) -> (Seq<char>, Seen) {
    if gone_quiet(e, now) {
        (e.0, Seen { last_ms: e.1.last_ms, present: false })
    } else {
        e
    }
}

/// The tracker after a sweep at `now`.
pub open spec fn sweep_spec(m: Beats, now: int) -> Beats {
    m.map_values(|e: (Seq<char>, Seen)| swept(e, now))
}

/// The people a sweep at `now` retires, in id order.
pub open spec fn departures(m: Beats, now: int) -> Seq<Seq<char>> {
    m.filter(|e: (Seq<char>, Seen)| gone_quiet(e, now)).map_values(|e: (Seq<char>, Seen)| e.0)
}

/// A tracker that believes `people` were here at `now`.
pub open spec fn seed(people: Seq<Seq<char>>, now: i64) -> Beats
    decreases people.len(),
{
    if people.len() == 0 {
        Seq::empty()
    } else {
        insert_spec(seed(people.drop_last(), now), people.last(), Seen { last_ms: now, present: true })
    }
}

/// Whether a beat from `person` would be an arrival: it is not already
/// announced.
pub open spec fn arrives(m: Beats, person: Seq<char>) -> bool {
    !(lookup(m, person) matches Some(s) && s.present)
}

/// Whether some entry of `m` is about `person` and satisfies `pred`.
proof fn lemma_in_filtered_keys(
    m: Beats,
    pred: spec_fn((Seq<char>, Seen)) -> bool,
    person: Seq<char>,
) -> (i: int)
    requires
        m.filter(pred).map_values(|e: (Seq<char>, Seen)| e.0).contains(person),
    ensures
        0 <= i < m.len(),
        m[i].0 == person,
        pred(m[i]),
{
    let keys = m.filter(pred).map_values(|e: (Seq<char>, Seen)| e.0);
    let k = choose|k: int| 0 <= k < keys.len() && keys[k] == person;
    let e = m.filter(pred)[k];
    broadcast use vstd::seq_lib::group_filter_ensures;

    assert(m.filter(pred).contains(e));
    m.lemma_filter_contains_rev(pred, e);
    let i = choose|i: int| 0 <= i < m.len() && m[i] == e;
    i
}

/// Filtering after a step that keeps every entry's key and verdict is
/// filtering before it.
proof fn lemma_filter_after_step(
    m: Beats,
    step: spec_fn((Seq<char>, Seen)) -> (Seq<char>, Seen),
    pred: spec_fn((Seq<char>, Seen)) -> bool,
)
    requires
        forall|e: (Seq<char>, Seen)| #[trigger] step(e).0 == e.0 && pred(step(e)) == pred(e),
    ensures
        m.map_values(step).filter(pred).map_values(|e: (Seq<char>, Seen)| e.0) == m.filter(
            pred,
        ).map_values(|e: (Seq<char>, Seen)| e.0),
    decreases m.len(),
{
    reveal(Seq::filter);
    let key = |e: (Seq<char>, Seen)| e.0;
    if m.len() > 0 {
        let t = m.drop_last();
        let last = m.last();
        lemma_filter_after_step(t, step, pred);
        let sm = m.map_values(step);
        assert(sm.drop_last() =~= t.map_values(step));
        assert(sm.last() == step(last));
        assert(step(last).0 == last.0 && pred(step(last)) == pred(last));
        let a = sm.filter(pred);
        let b = m.filter(pred);
        let a0 = t.map_values(step).filter(pred);
        let b0 = t.filter(pred);
        assert(a0.map_values(key) == b0.map_values(key));
        if pred(last) {
            assert(a == a0.push(step(last)));
            assert(b == b0.push(last));
            assert(a.map_values(key) =~= a0.map_values(key).push(last.0));
            assert(b.map_values(key) =~= b0.map_values(key).push(last.0));
        } else {
            assert(a == a0);
            assert(b == b0);
        }
    } else {
        assert(m.map_values(step).filter(pred) =~= Seq::<(Seq<char>, Seen)>::empty());
        assert(m.filter(pred) =~= Seq::<(Seq<char>, Seen)>::empty());
    }
}

/// A second beat from someone already announced announces nothing: a phone
/// beating all evening produces one arrival, not hundreds.
pub proof fn lemma_a_second_beat_is_silent(m: Beats, person: Seq<char>, first_ms: i64)
    requires
        sorted_keys(m),
    ensures
        !arrives(insert_spec(m, person, Seen { last_ms: first_ms, present: true }), person),
{
    lemma_insert_spec(m, person, Seen { last_ms: first_ms, present: true });
}

/// Someone the tracker was seeded with is already announced: their first
/// beat after a restart is no arrival.
pub proof fn lemma_seeded_people_are_announced(people: Seq<Seq<char>>, now: i64, person: Seq<char>)
    requires
        people.contains(person),
    ensures
        sorted_keys(seed(people, now)),
        !arrives(seed(people, now), person),
    decreases people.len(),
{
    lemma_seed_sorted(people, now);
    let rest = people.drop_last();
    let s = Seen { last_ms: now, present: true };
    lemma_seed_sorted(rest, now);
    lemma_insert_spec(seed(rest, now), people.last(), s);
    if person != people.last() {
        let i = choose|i: int| 0 <= i < people.len() && people[i] == person;
        assert(rest[i] == person);
        lemma_seeded_people_are_announced(rest, now, person);
    }
}

proof fn lemma_seed_sorted(people: Seq<Seq<char>>, now: i64)
    ensures
        sorted_keys(seed(people, now)),
    decreases people.len(),
{
    if people.len() > 0 {
        lemma_seed_sorted(people.drop_last(), now);
        lemma_insert_spec(
            seed(people.drop_last(), now),
            people.last(),
            Seen { last_ms: now, present: true },
        );
    }
}

/// A sweep retires someone once: nobody a sweep retired is retired again by
/// any later sweep, until they beat again.
pub proof fn lemma_retired_only_once(m: Beats, now: int, later: int, person: Seq<char>)
    requires
        sorted_keys(m),
        departures(m, now).contains(person),
    ensures
        !departures(sweep_spec(m, now), later).contains(person),
{
    let i = lemma_in_filtered_keys(m, |e: (Seq<char>, Seen)| gone_quiet(e, now), person);
    let after = sweep_spec(m, now);
    if departures(after, later).contains(person) {
        let j = lemma_in_filtered_keys(after, |e: (Seq<char>, Seen)| gone_quiet(e, later), person);
        assert(after[j] == swept(m[j], now));
        if i != j {
            if i < j {
                assert(lex_lt(m[i].0, m[j].0));
            } else {
                assert(lex_lt(m[j].0, m[i].0));
            }
            lemma_lex_irreflexive(person);
        }
    }
}

/// Sweeping twice at the same moment retires nobody the second time.
pub proof fn lemma_sweep_is_idempotent(m: Beats, now: int)
    ensures
        sweep_spec(sweep_spec(m, now), now) == sweep_spec(m, now),
        departures(sweep_spec(m, now), now).len() == 0,
{
    let after = sweep_spec(m, now);
    assert(sweep_spec(after, now) =~= after);
    let pred = |e: (Seq<char>, Seen)| gone_quiet(e, now);
    if departures(after, now).len() > 0 {
        let e = after.filter(pred)[0];
        broadcast use vstd::seq_lib::group_filter_ensures;

        assert(after.filter(pred).contains(e));
        after.lemma_filter_contains_rev(pred, e);
    }
}

/// Anyone paying attention is present: attention is the shorter window.
pub proof fn lemma_attentive_are_present(m: Beats, now: int, person: Seq<char>)
    requires
        beating(m, now, ATTENTION_MS as int).contains(person),
    ensures
        beating(m, now, WINDOW_MS as int).contains(person),
{
    let i = lemma_in_filtered_keys(
        m,
        |e: (Seq<char>, Seen)| beating_within(e, now, ATTENTION_MS as int),
        person,
    );
    let pred = |e: (Seq<char>, Seen)| beating_within(e, now, WINDOW_MS as int);
    broadcast use vstd::seq_lib::group_filter_ensures;

    assert(m.filter(pred).contains(m[i]));
    let k = choose|k: int| 0 <= k < m.filter(pred).len() && m.filter(pred)[k] == m[i];
    assert(beating(m, now, WINDOW_MS as int)[k] == person);
}

/// A sweep changes nobody's presence at the moment it runs: it only
/// retires people who had already stopped counting as present.
pub proof fn lemma_sweep_keeps_who_is_present(m: Beats, now: int)
    ensures
        beating(sweep_spec(m, now), now, WINDOW_MS as int) == beating(m, now, WINDOW_MS as int),
{
    let step = |e: (Seq<char>, Seen)| swept(e, now);
    let pred = |e: (Seq<char>, Seen)| beating_within(e, now, WINDOW_MS as int);
    assert forall|e: (Seq<char>, Seen)| #[trigger] step(e).0 == e.0 && pred(step(e)) == pred(e) by {}
    lemma_filter_after_step(m, step, pred);
}

/// Last-seen state per person, and the transitions it implies.
#[derive(Debug)]
pub struct Presence {
    seen: StrMap<Seen>,
}

impl View for Presence {
    type V = Beats;

    closed spec fn view(&self) -> Beats {
        self.seen@
    }
}

/// A presence row of this tracker about `person`.
fn heartbeat_event(k: &str, person: &str) -> (r: NewEvent)
    ensures
        heartbeat_row(r, k@, person@),
{
    let payload = via_payload_for(&Via::Heartbeat);
    let r = NewEvent::new(k).actor(person).payload(payload);
    assert(views(r.actors@) =~= seq![person@]);
    r
}

/// The people among `m` whose entries `keep` accepts, in order.
fn people_beating(m: &StrMap<Seen>, now_ms: i64, span: i64) -> (r: Vec<String>)
    ensures
        views(r@) == beating(m@, now_ms as int, span as int),
        sorted_strs(views(r@)),
{
    let ghost s = m@;
    let ghost pred = |e: (Seq<char>, Seen)| beating_within(e, now_ms as int, span as int);
    let ghost key = |e: (Seq<char>, Seen)| e.0;
    let n = m.len();
    proof {
        lemma_filter_nothing(s, pred);
    }
    let mut out: Vec<String> = Vec::new();
    let mut i: usize = 0;
    while i < n
        invariant
            n == s.len(),
            s == m@,
            pred == (|e: (Seq<char>, Seen)| beating_within(e, now_ms as int, span as int)),
            key == (|e: (Seq<char>, Seen)| e.0),
            i <= n,
            views(out@) == s.subrange(0, i as int).filter(pred).map_values(key),
        decreases n - i,
    {
        let state = *m.value_at(i);
        proof {
            lemma_filter_prefix(s, pred, i as int);
        }
        if state.present && (now_ms as i128) - (state.last_ms as i128) < span as i128 {
            let person = m.key_at(i).clone();
            let ghost prev = out@;
            out.push(person);
            assert(views(out@) =~= views(prev).push(s[i as int].0));
            assert(s.subrange(0, i + 1).filter(pred).map_values(key) =~= s.subrange(
                0,
                i as int,
            ).filter(pred).map_values(key).push(s[i as int].0));
        } else {
            assert(s.subrange(0, i + 1).filter(pred) == s.subrange(0, i as int).filter(pred));
        }
        i = i + 1;
    }
    proof {
        lemma_full_prefix(s);
        lemma_filter_sorted(s, pred);
        lemma_keys_ascending(s.filter(pred));
        assert(s.filter(pred).map_values(key) =~= keys_of(s.filter(pred)));
    }
    out
}

impl Presence {
    /// An empty tracker.
    pub fn new() -> (r: Self)
        ensures
            r@ == Seq::<(Seq<char>, Seen)>::empty(),
    {
        Presence { seen: StrMap::new() }
    }

    /// A tracker that already believes `present` are here.
    ///
    /// Used at startup. The log — and so the rebuilt roster — may already say
    /// people are in the room; without seeding, the first heartbeat after a
    /// restart would announce an arrival for someone who never left. Seeded
    /// people are still swept normally if they never beat.
    pub fn seeded(present: &[String], now_ms: i64) -> (r: Self)
        ensures
            r@ == seed(views(present@), now_ms),
    {
        let mut seen: StrMap<Seen> = StrMap::new();
        let mut i: usize = 0;
        assert(views(present@).subrange(0, 0) =~= Seq::<Seq<char>>::empty());
        while i < present.len()
            invariant
                i <= present@.len(),
                seen@ == seed(views(present@).subrange(0, i as int), now_ms),
            decreases present@.len() - i,
        {
            let person = present[i].clone();
            proof {
                let pre = views(present@).subrange(0, i + 1);
                assert(pre.drop_last() =~= views(present@).subrange(0, i as int));
                assert(pre.last() == present@[i as int]@);
            }
            seen.insert(person, Seen { last_ms: now_ms, present: true });
            i = i + 1;
        }
        assert(views(present@).subrange(0, present@.len() as int) =~= views(present@));
        Presence { seen }
    }

    /// Record a heartbeat, returning an event only if this is an arrival.
    ///
    /// Presence is held explicitly rather than inferred from the last beat,
    /// so arrival and departure cannot both fire for one transition however
    /// the sweep and the beat interleave.
    pub fn beat(&mut self, person: &str, now_ms: i64) -> (r: Option<NewEvent>)
        ensures
            final(self)@ == insert_spec(old(self)@, person@, Seen { last_ms: now_ms, present: true }),
            lookup(final(self)@, person@) == Some(Seen { last_ms: now_ms, present: true }),
            forall|p: Seq<char>| p != person@ ==> #[trigger] lookup(final(self)@, p) == lookup(old(self)@, p),
            r is Some == arrives(old(self)@, person@),
            r matches Some(e) ==> heartbeat_row(e, kind::PRESENCE_ARRIVED@, person@),
    {
        let was_present = match self.seen.get(person) {
            Some(state) => state.present,
            None => false,
        };
        self.seen.insert(person.to_string(), Seen { last_ms: now_ms, present: true });
        if was_present {
            None
        } else {
            Some(heartbeat_event(kind::PRESENCE_ARRIVED, person))
        }
    }

    /// Who is looking at SESH right now.
    ///
    /// The right input for *may this person act*. **Never the veto
    /// denominator**: a majority of the people currently staring at their
    /// phones is not a majority of the room.
    pub fn attentive(&self, now_ms: i64) -> (r: Vec<String>)
        ensures
            views(r@) == beating(self@, now_ms as int, ATTENTION_MS as int),
            sorted_strs(views(r@)),
    {
        people_beating(&self.seen, now_ms, ATTENTION_MS)
    }

    /// Who this tracker believes is in the room.
    ///
    /// The heartbeat's answer to the presence question, and only ever one
    /// input to it: the authoritative roster is rebuilt from the log.
    pub fn present(&self, now_ms: i64) -> (r: Vec<String>)
        ensures
            views(r@) == beating(self@, now_ms as int, WINDOW_MS as int),
            sorted_strs(views(r@)),
    {
        people_beating(&self.seen, now_ms, WINDOW_MS)
    }

    /// Retire anyone who has gone quiet, returning their departures in id
    /// order.
    pub fn sweep(&mut self, now_ms: i64) -> (r: Vec<NewEvent>)
        ensures
            final(self)@ == sweep_spec(old(self)@, now_ms as int),
            r@.len() == departures(old(self)@, now_ms as int).len(),
            forall|i: int|
                0 <= i < r@.len() ==> heartbeat_row(
                    #[trigger] r@[i],
                    kind::PRESENCE_LEFT@,
                    departures(old(self)@, now_ms as int)[i],
                ),
    {
        let ghost start = self.seen@;
        let ghost now = now_ms as int;
        let ghost pred = |e: (Seq<char>, Seen)| gone_quiet(e, now);
        let ghost key = |e: (Seq<char>, Seen)| e.0;
        let n = self.seen.len();
        proof {
            lemma_filter_nothing(start, pred);
        }
        let mut out: Vec<NewEvent> = Vec::new();
        let mut i: usize = 0;
        while i < n
            invariant
                n == start.len(),
                now == now_ms as int,
                pred == (|e: (Seq<char>, Seen)| gone_quiet(e, now)),
                key == (|e: (Seq<char>, Seen)| e.0),
                i <= n,
                self.seen@.len() == n,
                forall|j: int| 0 <= j < i ==> #[trigger] self.seen@[j] == swept(start[j], now),
                forall|j: int| i <= j < n ==> #[trigger] self.seen@[j] == start[j],
                out@.len() == start.subrange(0, i as int).filter(pred).map_values(key).len(),
                forall|j: int|
                    0 <= j < out@.len() ==> heartbeat_row(
                        #[trigger] out@[j],
                        kind::PRESENCE_LEFT@,
                        start.subrange(0, i as int).filter(pred).map_values(key)[j],
                    ),
            decreases n - i,
        {
            let state = *self.seen.value_at(i);
            proof {
                lemma_filter_prefix(start, pred, i as int);
            }
            if state.present && (now_ms as i128) - (state.last_ms as i128) >= WINDOW_MS as i128 {
                let _ = self.seen.replace_at(i, Seen { last_ms: state.last_ms, present: false });
                let event = heartbeat_event(kind::PRESENCE_LEFT, self.seen.key_at(i).as_str());
                let ghost prev = out@;
                out.push(event);
                proof {
                    let before = start.subrange(0, i as int).filter(pred).map_values(key);
                    let after = start.subrange(0, i + 1).filter(pred).map_values(key);
                    assert(after =~= before.push(start[i as int].0));
                    assert forall|j: int| 0 <= j < out@.len() implies heartbeat_row(
                        #[trigger] out@[j],
                        kind::PRESENCE_LEFT@,
                        after[j],
                    ) by {
                        if j < prev.len() {
                            assert(out@[j] == prev[j]);
                        }
                    }
                }
            } else {
                assert(start.subrange(0, i + 1).filter(pred) == start.subrange(0, i as int).filter(pred));
            }
            i = i + 1;
        }
        proof {
            lemma_full_prefix(start);
            assert(self.seen@ =~= sweep_spec(start, now));
        }
        out
    }
}

} // verus!
