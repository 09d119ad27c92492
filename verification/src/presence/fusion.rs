//! Deciding who is in the room from several signals that disagree.
//!
//! Pure and clockless: every method takes the time it should reason about,
//! so an entire evening can be replayed with no hardware and no waiting.
//!
//! ## The rules
//!
//! **Presence is the union of live signals.** Any signal that has seen you
//! recently puts you in the room. Failing to notice someone is a worse error
//! than briefly believing in somebody who stepped out, because the veto
//! denominator is built on it.
//!
//! **A stronger signal overrides a weaker one only when it is *positively
//! absent*, never merely stale.** Positively absent means the room looked and
//! did not find you. Stale means nothing has been heard, which is not
//! evidence — a scanner that has crashed is silent in exactly the same way as
//! a room you have left.
//!
//! **`asserted` outranks everything, and expires.**

use vstd::prelude::*;

use super::via::{lemma_known_round_trip, via_model, via_text, Via, ViaModel};
use crate::seqs::{lemma_filter_nothing, lemma_filter_prefix, lemma_full_prefix};
use crate::strmap::{
    has_key, insert_spec, keys_of, lemma_entry_at, lemma_has_key_at_lower_bound, lemma_key_unique,
    lemma_lookup_at, lemma_lookup_filter, lemma_lookup_found,
    lemma_filter_sorted, lemma_insert_spec, lemma_lookup_absent, lemma_lower_bound, lemma_map_vals,
    lemma_map_vals_insert, lookup, lower_bound, map_vals, sorted_keys, StrMap,
};
use crate::strset::{
    lemma_filter_ascending, lemma_keys_ascending, lemma_sorted_unique, sorted_strs, views,
};
use crate::text::{lemma_lex_asymmetric, lemma_lex_irreflexive, lex_lt, str_eq};

verus! {

/// How long a signal's word is good for, in milliseconds.
///
/// These differ because the signals fail differently. A BLE gap of thirty
/// seconds is someone walking to the kitchen; a heartbeat gap of thirty
/// seconds is a locked screen; a wifi lease outlives both and knows only the
/// flat. An unknown producer is trusted as far as the weakest thing we know.
pub open spec fn window(v: ViaModel) -> int {
    match v {
        // Two minutes.
        ViaModel::Ble => 120_000,
        // Fifteen minutes.
        ViaModel::Wifi => 900_000,
        // Ten minutes, as long as a phone may doze.
        ViaModel::Heartbeat => 600_000,
        // One evening: six hours.
        ViaModel::Asserted => 21_600_000,
        // Ten minutes, like the weakest signal we know.
        ViaModel::Other(_) => 600_000,
    }
}

/// How much a signal's word is worth when two of them disagree. Higher wins.
pub open spec fn rank(v: ViaModel) -> int {
    match v {
        ViaModel::Asserted => 4,
        ViaModel::Ble => 3,
        ViaModel::Wifi => 2,
        ViaModel::Heartbeat => 1,
        ViaModel::Other(_) => 0,
    }
}

/// How long each signal's word is good for.
pub fn window_ms(via: &Via) -> (r: i64)
    ensures
        r == window(via@),
{
    match via {
        Via::Ble => 2 * 60 * 1000,
        Via::Wifi => 15 * 60 * 1000,
        Via::Heartbeat => 10 * 60 * 1000,
        Via::Asserted => 6 * 60 * 60 * 1000,
        Via::Other(_) => 10 * 60 * 1000,
    }
}

/// How much a signal's word is worth.
fn rank_of(via: &Via) -> (r: u8)
    ensures
        r == rank(via@),
{
    match via {
        Via::Asserted => 4,
        Via::Ble => 3,
        Via::Wifi => 2,
        Via::Heartbeat => 1,
        Via::Other(_) => 0,
    }
}

/// What one signal last said about one person.
#[derive(Debug, Clone, Copy, PartialEq, Eq, Structural)]
pub enum Word {
    /// The signal saw them.
    Seen,
    /// The signal looked and did not find them.
    Missing,
}

/// One signal's last word, and when it said it.
#[derive(Debug, Clone, Copy, PartialEq, Eq, Structural)]
pub struct Said {
    /// What it said.
    pub word: Word,
    /// When it said it.
    pub at_ms: i64,
}

/// What the signals have said about one person: signal text to last word,
/// in key order.
pub type Words = Seq<(Seq<char>, Said)>;

/// What the signals have said about everybody: person to [`Words`], in key
/// order.
pub type Heard = Seq<(Seq<char>, Words)>;

/// Whether the word signal `raw` gave is still inside that signal's window.
pub open spec fn live(raw: Seq<char>, s: Said, now: int) -> bool {
    now - s.at_ms < window(via_model(raw))
}

/// The rank of the signal written `raw`.
pub open spec fn raw_rank(raw: Seq<char>) -> int {
    rank(via_model(raw))
}

/// Whether entry `i` of `words` may put its person in the room at `now`: it
/// saw them, it is live, and no live signal that looked and failed to find
/// them outranks it.
pub open spec fn eligible(words: Words, i: int, now: int) -> bool {
    &&& 0 <= i < words.len()
    &&& words[i].1.word == Word::Seen
    &&& live(words[i].0, words[i].1, now)
    &&& forall|k: int|
        0 <= k < words.len() && words[k].1.word == Word::Missing && live(words[k].0, words[k].1, now)
            ==> raw_rank(#[trigger] words[k].0) <= raw_rank(words[i].0)
}

/// Whether entry `i` is the reason the room believes in its person: the
/// strongest eligible signal, and of equally strong ones the last in key
/// order.
pub open spec fn chosen(words: Words, i: int, now: int) -> bool {
    &&& eligible(words, i, now)
    &&& forall|j: int| #[trigger] eligible(words, j, now) ==> raw_rank(words[j].0) <= raw_rank(words[i].0)
    &&& forall|j: int| i < j && #[trigger] eligible(words, j, now) ==> raw_rank(words[j].0) < raw_rank(words[i].0)
}

/// What the signals have said about `person`; nothing if they never have.
pub open spec fn words_of(heard: Heard, person: Seq<char>) -> Words {
    match lookup(heard, person) {
        Some(w) => w,
        None => Seq::empty(),
    }
}

/// Whether the room believes `person` is in it at `now`.
pub open spec fn believed(heard: Heard, person: Seq<char>, now: int) -> bool {
    exists|i: int| #[trigger] eligible(words_of(heard, person), i, now)
}

/// The signal the room trusts for a person whose signals said `words`.
pub open spec fn reason(words: Words, now: int, r: Option<ViaModel>) -> bool {
    match r {
        None => forall|i: int| !#[trigger] eligible(words, i, now),
        Some(v) => exists|i: int| #[trigger] chosen(words, i, now) && v == via_model(words[i].0),
    }
}

/// `heard` after `raw` said `said` about `person`.
pub open spec fn record(heard: Heard, person: Seq<char>, raw: Seq<char>, said: Said) -> Heard {
    insert_spec(heard, person, insert_spec(words_of(heard, person), raw, said))
}

/// Whether a word was said at or after `before_ms`.
pub open spec fn recent(e: (Seq<char>, Said), before_ms: int) -> bool {
    e.1.at_ms >= before_ms
}

/// The words said at or after `before_ms`, as a test on one word.
pub open spec fn said_since(before_ms: int) -> spec_fn((Seq<char>, Said)) -> bool {
    |w: (Seq<char>, Said)| recent(w, before_ms)
}

/// Whether a person still has words.
pub open spec fn has_words() -> spec_fn((Seq<char>, Words)) -> bool {
    |e: (Seq<char>, Words)| e.1.len() > 0
}

/// One person's words without those said before `before_ms`.
pub open spec fn keep_recent(e: (Seq<char>, Words), before_ms: int) -> (Seq<char>, Words) {
    (e.0, e.1.filter(said_since(before_ms)))
}

/// `heard` with everything said before `before_ms` forgotten, and people
/// with nothing left dropped.
pub open spec fn forget(heard: Heard, before_ms: int) -> Heard {
    heard.map_values(|e: (Seq<char>, Words)| keep_recent(e, before_ms)).filter(has_words())
}

/// Every map a view is made of is kept in key order: the people, and each
/// person's signals.
pub open spec fn valid(heard: Heard) -> bool {
    &&& sorted_keys(heard)
    &&& forall|i: int| 0 <= i < heard.len() ==> sorted_keys(#[trigger] heard[i].1)
}

/// The view of one person's signal map.
pub open spec fn words_view(m: StrMap<Said>) -> Words {
    m@
}

/// Several signals' opinions about who is in the room, and the rules for
/// resolving them.
#[derive(Debug)]
pub struct Fusion {
    said: StrMap<StrMap<Said>>,
}

impl View for Fusion {
    type V = Heard;

    closed spec fn view(&self) -> Heard {
        map_vals(self.said@, |m: StrMap<Said>| words_view(m))
    }
}

impl Fusion {
    #[verifier::type_invariant]
    closed spec fn inv(self) -> bool {
        valid(self@)
    }
}

/// Every person's words in a view with one more person bound are kept in
/// key order, when they were before and the new person's are.
proof fn lemma_insert_entries(heard: Heard, person: Seq<char>, words: Words)
    requires
        valid(heard),
        sorted_keys(words),
    ensures
        valid(insert_spec(heard, person, words)),
{
    lemma_insert_spec(heard, person, words);
    lemma_lower_bound(heard, person);
    let r = insert_spec(heard, person, words);
    let p = lower_bound(heard, person);
    assert forall|j: int| 0 <= j < r.len() implies sorted_keys(#[trigger] r[j].1) by {
        if p < heard.len() && heard[p].0 == person {
            if j != p {
                assert(r[j] == heard[j]);
            }
        } else {
            if j < p {
                assert(r[j] == heard[j]);
            } else if j > p {
                assert(r[j] == heard[j - 1]);
            }
        }
    }
}

/// Forgetting keeps every map of a view in key order.
proof fn lemma_forget_valid(heard: Heard, before_ms: int)
    requires
        valid(heard),
    ensures
        valid(forget(heard, before_ms)),
{
    broadcast use vstd::seq_lib::group_filter_ensures;

    let shrunk = heard.map_values(|e: (Seq<char>, Words)| keep_recent(e, before_ms));
    assert(sorted_keys(shrunk)) by {
        assert forall|i: int, j: int| 0 <= i < j < shrunk.len() implies lex_lt(
            #[trigger] shrunk[i].0,
            #[trigger] shrunk[j].0,
        ) by {
            assert(shrunk[i].0 == heard[i].0 && shrunk[j].0 == heard[j].0);
        }
    }
    lemma_filter_sorted(shrunk, has_words());
    let r = forget(heard, before_ms);
    assert forall|j: int| 0 <= j < r.len() implies sorted_keys(#[trigger] r[j].1) by {
        assert(r.contains(r[j]));
        shrunk.lemma_filter_contains_rev(has_words(), r[j]);
        let m = choose|m: int| 0 <= m < shrunk.len() && shrunk[m] == r[j];
        assert(r[j].1 == heard[m].1.filter(said_since(before_ms)));
        lemma_filter_sorted(heard[m].1, said_since(before_ms));
    }
}

/// The rank of the signal written `raw`.
fn rank_of_text(raw: &str) -> (r: u8)
    ensures
        r == raw_rank(raw@),
{
    rank_of(&Via::parse(raw))
}

/// Whether `said`, from the signal written `raw`, is live at `now`.
fn is_live(raw: &str, said: Said, now_ms: i64) -> (r: bool)
    ensures
        r == live(raw@, said, now_ms as int),
{
    let w = window_ms(&Via::parse(raw));
    (now_ms as i128) - (said.at_ms as i128) < w as i128
}

/// The signal the room trusts, given what the signals said about one
/// person. The rules, in one place.
fn decide(words: &StrMap<Said>, now_ms: i64) -> (r: Option<Via>)
    ensures
        reason(
            words@,
            now_ms as int,
            match r {
                Some(v) => Some(v@),
                None => None,
            },
        ),
{
    let n = words.len();
    let ghost w = words@;
    let ghost now = now_ms as int;
    // The strongest signal that positively looked and found nothing. Only a
    // signal at least this strong may still put the person in the room.
    let mut floor: i16 = -1;
    let mut i: usize = 0;
    while i < n
        invariant
            n == w.len(),
            w == words@,
            now == now_ms as int,
            i <= n,
            -1 <= floor <= 4,
            forall|k: int|
                0 <= k < i && w[k].1.word == Word::Missing && live(w[k].0, w[k].1, now)
                    ==> raw_rank(#[trigger] w[k].0) <= floor,
            floor >= 0 ==> exists|k: int|
                0 <= k < i && w[k].1.word == Word::Missing && live(w[k].0, w[k].1, now)
                    && raw_rank(#[trigger] w[k].0) == floor,
        decreases n - i,
    {
        let key = words.key_at(i);
        let said = *words.value_at(i);
        if said.word == Word::Missing && is_live(key.as_str(), said, now_ms) {
            let r = rank_of_text(key.as_str()) as i16;
            if r > floor {
                floor = r;
            }
        }
        i = i + 1;
    }
    // A signal is eligible exactly when it saw them, is live, and is at
    // least as strong as the floor.
    assert forall|j: int| 0 <= j < n implies #[trigger] eligible(w, j, now) == (w[j].1.word
        == Word::Seen && live(w[j].0, w[j].1, now) && raw_rank(w[j].0) >= floor) by {
        if floor >= 0 {
            let k = choose|k: int|
                0 <= k < n && w[k].1.word == Word::Missing && live(w[k].0, w[k].1, now)
                    && raw_rank(#[trigger] w[k].0) == floor;
            if eligible(w, j, now) {
                assert(raw_rank(w[k].0) <= raw_rank(w[j].0));
            }
        }
    }
    let mut best: Option<usize> = None;
    let mut best_rank: u8 = 0;
    let mut i: usize = 0;
    while i < n
        invariant
            n == w.len(),
            w == words@,
            now == now_ms as int,
            i <= n,
            -1 <= floor <= 4,
            forall|j: int|
                0 <= j < n ==> #[trigger] eligible(w, j, now) == (w[j].1.word == Word::Seen
                    && live(w[j].0, w[j].1, now) && raw_rank(w[j].0) >= floor),
            match best {
                None => forall|j: int| 0 <= j < i ==> !#[trigger] eligible(w, j, now),
                Some(b) => {
                    &&& b < i
                    &&& eligible(w, b as int, now)
                    &&& best_rank == raw_rank(w[b as int].0)
                    &&& forall|j: int|
                        0 <= j < i && #[trigger] eligible(w, j, now) ==> raw_rank(w[j].0)
                            <= best_rank
                    &&& forall|j: int|
                        b < j < i && #[trigger] eligible(w, j, now) ==> raw_rank(w[j].0)
                            < best_rank
                },
            },
        decreases n - i,
    {
        let key = words.key_at(i);
        let said = *words.value_at(i);
        if said.word == Word::Seen && is_live(key.as_str(), said, now_ms) {
            let r = rank_of_text(key.as_str());
            if r as i16 >= floor {
                assert(eligible(w, i as int, now));
                match best {
                    None => {
                        best = Some(i);
                        best_rank = r;
                    },
                    Some(_) => {
                        if r >= best_rank {
                            best = Some(i);
                            best_rank = r;
                        }
                    },
                }
            } else {
                assert(!eligible(w, i as int, now));
            }
        } else {
            assert(!eligible(w, i as int, now));
        }
        i = i + 1;
    }
    match best {
        None => {
            assert forall|j: int| !#[trigger] eligible(w, j, now) by {
                if 0 <= j < n {
                }
            }
            None
        },
        Some(b) => {
            let key = words.key_at(b);
            let via = Via::parse(key.as_str());
            assert(chosen(w, b as int, now));
            Some(via)
        },
    }
}

/// The words in `words` said at or after `before_ms`.
fn keep_since(words: &StrMap<Said>, before_ms: i64) -> (r: StrMap<Said>)
    ensures
        r@ == words@.filter(said_since(before_ms as int)),
        sorted_keys(r@),
{
    let ghost w = words@;
    let ghost pred = said_since(before_ms as int);
    let n = words.len();
    let mut out: StrMap<Said> = StrMap::new();
    proof {
        lemma_filter_nothing(w, pred);
    }
    let mut i: usize = 0;
    while i < n
        invariant
            n == w.len(),
            w == words@,
            sorted_keys(w),
            pred == said_since(before_ms as int),
            i <= n,
            out@ == w.subrange(0, i as int).filter(pred),
            out@.len() == 0 || exists|k: int| 0 <= k < i && out@.last().0 == #[trigger] w[k].0,
        decreases n - i,
    {
        let said = *words.value_at(i);
        proof {
            lemma_filter_prefix(w, pred, i as int);
        }
        if said.at_ms >= before_ms {
            let key = words.key_at(i).clone();
            proof {
                if out@.len() > 0 {
                    let k = choose|k: int| 0 <= k < i && out@.last().0 == #[trigger] w[k].0;
                    assert(lex_lt(w[k].0, w[i as int].0));
                }
            }
            out.push_last(key, said);
            assert(out@.last().0 == w[i as int].0);
        }
        i = i + 1;
    }
    proof {
        lemma_full_prefix(w);
    }
    let _ = out.len();
    out
}

impl Fusion {
    /// An empty view: nobody has been seen by anything.
    pub fn new() -> (r: Self)
        ensures
            r@ == Seq::<(Seq<char>, Words)>::empty(),
            valid(r@),
    {
        let r = Fusion { said: StrMap::new() };
        assert(r@ =~= Seq::<(Seq<char>, Words)>::empty());
        r
    }

    /// Record that `via` saw `person` at `at_ms`.
    pub fn seen(&mut self, person: &str, via: &Via, at_ms: i64)
        ensures
            final(self)@ == record(
                old(self)@,
                person@,
                via_text(via@),
                Said { word: Word::Seen, at_ms },
            ),
            valid(final(self)@),
    {
        self.record(person, via, Word::Seen, at_ms);
    }

    /// Record that `via` looked for `person` at `at_ms` and did not find them.
    ///
    /// The strong statement, and only a signal that actually swept may make
    /// it. A scanner that has stopped running must not call this: silence is
    /// a sighting going stale, which is a different thing.
    pub fn missing(&mut self, person: &str, via: &Via, at_ms: i64)
        ensures
            final(self)@ == record(
                old(self)@,
                person@,
                via_text(via@),
                Said { word: Word::Missing, at_ms },
            ),
            valid(final(self)@),
    {
        self.record(person, via, Word::Missing, at_ms);
    }

    fn record(&mut self, person: &str, via: &Via, word: Word, at_ms: i64)
        ensures
            final(self)@ == record(old(self)@, person@, via_text(via@), Said { word, at_ms }),
            valid(final(self)@),
    {
        proof {
            use_type_invariant(&*self);
        }
        let said = Said { word, at_ms };
        let raw = via.as_str().to_string();
        let mut all: StrMap<StrMap<Said>> = StrMap::new();
        std::mem::swap(&mut all, &mut self.said);
        let ghost before = all@;
        let ghost f = |m: StrMap<Said>| words_view(m);
        let n = all.len();
        proof {
            lemma_map_vals(before, f, person@);
        }
        match all.find(person) {
            Some(i) => {
                let mut inner = all.replace_at(i, StrMap::new());
                let ghost inner_before = inner@;
                inner.insert(raw, said);
                let _ = inner.len();
                let ghost inner_after = inner@;
                all.replace_at(i, inner);
                proof {
                    let m = map_vals(before, f);
                    lemma_entry_at(before, i as int);
                    lemma_entry_at(m, i as int);
                    assert(m[i as int].0 == person@);
                    assert(words_of(m, person@) == inner_before);
                    assert(all@ =~= before.update(i as int, (person@, inner)));
                    assert(map_vals(all@, f) =~= m.update(i as int, (person@, inner_after)));
                    lemma_has_key_at_lower_bound(m, person@);
                    assert forall|j: int| 0 <= j < map_vals(all@, f).len() implies sorted_keys(
                        #[trigger] map_vals(all@, f)[j].1,
                    ) by {
                        if j != i {
                            assert(map_vals(all@, f)[j] == m[j]);
                        }
                    }
                }
            },
            None => {
                let mut inner: StrMap<Said> = StrMap::new();
                inner.insert(raw, said);
                let _ = inner.len();
                let ghost inner_after = inner@;
                all.insert(person.to_string(), inner);
                proof {
                    let m = map_vals(before, f);
                    lemma_lookup_absent(before, person@);
                    lemma_map_vals_insert(before, f, person@, inner);
                    assert(words_of(m, person@) == Seq::<(Seq<char>, Said)>::empty());
                    assert(insert_spec(Seq::<(Seq<char>, Said)>::empty(), via_text(via@), said)
                        =~= inner_after);
                    lemma_insert_entries(m, person@, inner_after);
                }
            },
        }
        self.said = all;
    }

    /// Forget everything older than `before_ms`, so an all-night session does
    /// not accumulate every person the room has ever seen.
    pub fn forget_before(&mut self, before_ms: i64)
        ensures
            final(self)@ == forget(old(self)@, before_ms as int),
            valid(final(self)@),
    {
        proof {
            use_type_invariant(&*self);
        }
        let ghost f = |m: StrMap<Said>| words_view(m);
        let ghost heard = self@;
        let ghost shrunk = heard.map_values(|e: (Seq<char>, Words)| keep_recent(e, before_ms as int));
        let ghost nonempty = has_words();
        let n = self.said.len();
        proof {
            lemma_map_vals(self.said@, f, Seq::<char>::empty());
            lemma_filter_nothing(shrunk, nonempty);
        }
        let mut kept: StrMap<StrMap<Said>> = StrMap::new();
        assert(map_vals(kept@, f) =~= Seq::<(Seq<char>, Words)>::empty());
        let mut i: usize = 0;
        while i < n
            invariant
                n == self.said@.len(),
                heard == map_vals(self.said@, f),
                f == (|m: StrMap<Said>| words_view(m)),
                shrunk == heard.map_values(
                    |e: (Seq<char>, Words)| keep_recent(e, before_ms as int),
                ),
                nonempty == has_words(),
                sorted_keys(self.said@),
                i <= n,
                map_vals(kept@, f) == shrunk.subrange(0, i as int).filter(nonempty),
                kept@.len() == 0 || exists|k: int|
                    0 <= k < i && kept@.last().0 == #[trigger] self.said@[k].0,
            decreases n - i,
        {
            let fresh = keep_since(self.said.value_at(i), before_ms);
            proof {
                lemma_filter_prefix(shrunk, nonempty, i as int);
                assert(shrunk[i as int] == (self.said@[i as int].0, fresh@));
            }
            if fresh.len() > 0 {
                let key = self.said.key_at(i).clone();
                proof {
                    if kept@.len() > 0 {
                        let k = choose|k: int|
                            0 <= k < i && kept@.last().0 == #[trigger] self.said@[k].0;
                        assert(lex_lt(self.said@[k].0, self.said@[i as int].0));
                    }
                }
                let ghost prev = kept@;
                kept.push_last(key, fresh);
                assert(map_vals(kept@, f) =~= map_vals(prev, f).push(shrunk[i as int]));
                assert(kept@.last().0 == self.said@[i as int].0);
            }
            i = i + 1;
        }
        proof {
            lemma_full_prefix(shrunk);
            lemma_forget_valid(heard, before_ms as int);
        }
        self.said = kept;
    }

    /// Whether the room believes `person` is in it at `now_ms`.
    pub fn is_present(&self, person: &str, now_ms: i64) -> (r: bool)
        ensures
            r == believed(self@, person@, now_ms as int),
    {
        self.via_for(person, now_ms).is_some()
    }

    /// Which signal is currently the reason the room believes in `person`.
    ///
    /// `None` when the room does not believe in them at all. This is what a
    /// presence row records, so the log says not merely that someone is here
    /// but which sense the room is trusting.
    pub fn via_for(&self, person: &str, now_ms: i64) -> (r: Option<Via>)
        ensures
            reason(
                words_of(self@, person@),
                now_ms as int,
                match r {
                    Some(v) => Some(v@),
                    None => None,
                },
            ),
            r is Some == believed(self@, person@, now_ms as int),
            valid(self@),
    {
        proof {
            use_type_invariant(self);
        }
        let ghost f = |m: StrMap<Said>| words_view(m);
        let n = self.said.len();
        proof {
            lemma_map_vals(self.said@, f, person@);
        }
        match self.said.find(person) {
            Some(i) => {
                proof {
                    lemma_entry_at(self.said@, i as int);
                }
                let r = decide(self.said.value_at(i), now_ms);
                r
            },
            None => {
                proof {
                    lemma_lookup_absent(self.said@, person@);
                    assert forall|j: int| !#[trigger] eligible(
                        words_of(self@, person@),
                        j,
                        now_ms as int,
                    ) by {}
                }
                None
            },
        }
    }

    /// Everyone the room believes is in it, in stable alphabetical order.
    pub fn present(&self, now_ms: i64) -> (r: Vec<String>)
        ensures
            views(r@) == keys_of(self@).filter(|p: Seq<char>| believed(self@, p, now_ms as int)),
            sorted_strs(views(r@)),
            valid(self@),
    {
        let ghost f = |m: StrMap<Said>| words_view(m);
        let ghost heard = self@;
        let ghost pred = |p: Seq<char>| believed(heard, p, now_ms as int);
        let ghost keys = keys_of(heard);
        let n = self.said.len();
        proof {
            lemma_map_vals(self.said@, f, Seq::<char>::empty());
            lemma_filter_nothing(keys, pred);
        }
        let mut out: Vec<String> = Vec::new();
        let mut i: usize = 0;
        while i < n
            invariant
                n == self.said@.len(),
                heard == self@,
                heard == map_vals(self.said@, f),
                keys == keys_of(heard),
                pred == (|p: Seq<char>| believed(heard, p, now_ms as int)),
                keys.len() == n,
                sorted_keys(self.said@),
                sorted_keys(heard),
                i <= n,
                views(out@) == keys.subrange(0, i as int).filter(pred),
            decreases n - i,
        {
            let key = self.said.key_at(i);
            let verdict = decide(self.said.value_at(i), now_ms);
            proof {
                lemma_filter_prefix(keys, pred, i as int);
                lemma_entry_at(heard, i as int);
                assert(keys[i as int] == key@);
                assert(heard[i as int].0 == key@);
                assert(words_of(heard, key@) == heard[i as int].1);
                assert(heard[i as int].1 == self.said@[i as int].1@);
                let w = heard[i as int].1;
                if verdict is Some {
                    let j = choose|j: int| #[trigger] chosen(w, j, now_ms as int) && verdict->0@
                        == via_model(w[j].0);
                    assert(eligible(w, j, now_ms as int));
                }
                assert(words_of(heard, keys[i as int]) == w);
                assert(pred(keys[i as int]) == verdict is Some);
            }
            if verdict.is_some() {
                let ghost prev = out@;
                out.push(key.clone());
                assert(views(out@) =~= views(prev).push(key@));
            }
            i = i + 1;
        }
        proof {
            lemma_full_prefix(keys);
            use_type_invariant(self);
            lemma_keys_ascending(heard);
            lemma_filter_ascending(keys, pred);
        }
        out
    }
}

/// A person's words in a valid view are kept in key order.
proof fn lemma_words_sorted(heard: Heard, person: Seq<char>)
    requires
        valid(heard),
    ensures
        sorted_keys(words_of(heard, person)),
{
    lemma_lookup_found(heard, person);
    if let Some(w) = lookup(heard, person) {
        let i = choose|i: int| 0 <= i < heard.len() && #[trigger] heard[i] == (person, w);
        assert(sorted_keys(heard[i].1));
    }
}

/// Where `raw`'s new word sits among a person's words once it is recorded,
/// and that every other word there is one the person already had.
proof fn lemma_recorded_word(words: Words, raw: Seq<char>, said: Said) -> (i: int)
    requires
        sorted_keys(words),
    ensures
        0 <= i < insert_spec(words, raw, said).len(),
        insert_spec(words, raw, said)[i] == (raw, said),
        sorted_keys(insert_spec(words, raw, said)),
        forall|k: int|
            0 <= k < insert_spec(words, raw, said).len() && k != i ==> (#[trigger] insert_spec(
                words,
                raw,
                said,
            )[k]).0 != raw && exists|m: int|
                0 <= m < words.len() && words[m] == insert_spec(words, raw, said)[k],
{
    let w2 = insert_spec(words, raw, said);
    lemma_insert_spec(words, raw, said);
    let i = choose|i: int| 0 <= i < w2.len() && #[trigger] w2[i].0 == raw;
    lemma_lookup_at(w2, i);
    assert forall|k: int| 0 <= k < w2.len() && k != i implies (#[trigger] w2[k]).0 != raw
        && exists|m: int| 0 <= m < words.len() && words[m] == w2[k] by {
        if w2[k].0 == raw {
            lemma_key_unique(w2, i, k);
        }
        lemma_lookup_at(w2, k);
        lemma_lookup_found(words, w2[k].0);
        assert(lookup(words, w2[k].0) == Some(w2[k].1));
        let m = choose|m: int| 0 <= m < words.len() && #[trigger] words[m] == (w2[k].0, w2[k].1);
        assert(words[m] == w2[k]);
    }
    i
}

/// The words recorded for `person` are what the room decides them on.
proof fn lemma_recorded_words(heard: Heard, person: Seq<char>, raw: Seq<char>, said: Said)
    requires
        valid(heard),
    ensures
        words_of(record(heard, person, raw, said), person) == insert_spec(
            words_of(heard, person),
            raw,
            said,
        ),
        sorted_keys(words_of(heard, person)),
{
    lemma_words_sorted(heard, person);
    lemma_insert_spec(heard, person, insert_spec(words_of(heard, person), raw, said));
}

/// People are decided independently: what a signal says about one person
/// leaves what the room believes about everybody else as it was.
pub proof fn lemma_people_are_decided_independently(
    heard: Heard,
    person: Seq<char>,
    other: Seq<char>,
    raw: Seq<char>,
    said: Said,
    now: int,
)
    requires
        valid(heard),
        person != other,
    ensures
        believed(record(heard, person, raw, said), other, now) == believed(heard, other, now),
{
    lemma_insert_spec(heard, person, insert_spec(words_of(heard, person), raw, said));
    assert(words_of(record(heard, person, raw, said), other) == words_of(heard, other));
}

/// One signal is enough to be here: a signal that sees someone puts them in
/// the room for as long as its word is live, unless a live signal that
/// looked and did not find them outranks it.
pub proof fn lemma_a_live_sighting_is_believed(
    heard: Heard,
    person: Seq<char>,
    raw: Seq<char>,
    at_ms: i64,
    now: int,
)
    requires
        valid(heard),
        live(raw, Said { word: Word::Seen, at_ms }, now),
        forall|k: int|
            0 <= k < words_of(heard, person).len() && (#[trigger] words_of(heard, person)[k]).0 != raw
                && words_of(heard, person)[k].1.word == Word::Missing && live(
                words_of(heard, person)[k].0,
                words_of(heard, person)[k].1,
                now,
            ) ==> raw_rank(words_of(heard, person)[k].0) <= raw_rank(raw),
    ensures
        believed(record(heard, person, raw, Said { word: Word::Seen, at_ms }), person, now),
{
    let said = Said { word: Word::Seen, at_ms };
    let w = words_of(heard, person);
    lemma_recorded_words(heard, person, raw, said);
    let w2 = insert_spec(w, raw, said);
    let i = lemma_recorded_word(w, raw, said);
    assert forall|k: int|
        0 <= k < w2.len() && w2[k].1.word == Word::Missing && live(w2[k].0, w2[k].1, now)
            implies raw_rank(#[trigger] w2[k].0) <= raw_rank(w2[i].0) by {
        assert(k != i);
        let m = choose|m: int| 0 <= m < w.len() && w[m] == w2[k];
        assert(w[m].0 != raw);
    }
    assert(eligible(w2, i, now));
}

/// A human outranks every radio in the room: a live assertion that someone
/// is here puts them in the room whatever any other signal says.
pub proof fn lemma_a_live_assertion_is_believed(heard: Heard, person: Seq<char>, at_ms: i64, now: int)
    requires
        valid(heard),
        now - at_ms < window(ViaModel::Asserted),
    ensures
        believed(
            record(heard, person, via_text(ViaModel::Asserted), Said { word: Word::Seen, at_ms }),
            person,
            now,
        ),
{
    let raw = via_text(ViaModel::Asserted);
    lemma_known_round_trip(ViaModel::Asserted);
    let w = words_of(heard, person);
    assert forall|k: int| 0 <= k < w.len() implies raw_rank(#[trigger] w[k].0) <= raw_rank(raw) by {
        assert(rank(via_model(w[k].0)) <= 4);
    }
    lemma_a_live_sighting_is_believed(heard, person, raw, at_ms, now);
}

/// A stronger signal overrides a weaker one when it is positively absent: a
/// live word that someone was looked for and not found takes them out of
/// the room when every live signal still seeing them is weaker.
pub proof fn lemma_a_stronger_absence_evicts(
    heard: Heard,
    person: Seq<char>,
    raw: Seq<char>,
    at_ms: i64,
    now: int,
)
    requires
        valid(heard),
        live(raw, Said { word: Word::Missing, at_ms }, now),
        forall|k: int|
            0 <= k < words_of(heard, person).len() && (#[trigger] words_of(heard, person)[k]).0 != raw
                && words_of(heard, person)[k].1.word == Word::Seen && live(
                words_of(heard, person)[k].0,
                words_of(heard, person)[k].1,
                now,
            ) ==> raw_rank(words_of(heard, person)[k].0) < raw_rank(raw),
    ensures
        !believed(record(heard, person, raw, Said { word: Word::Missing, at_ms }), person, now),
{
    let said = Said { word: Word::Missing, at_ms };
    let w = words_of(heard, person);
    lemma_recorded_words(heard, person, raw, said);
    let w2 = insert_spec(w, raw, said);
    let i = lemma_recorded_word(w, raw, said);
    assert forall|j: int| !#[trigger] eligible(w2, j, now) by {
        if eligible(w2, j, now) {
            assert(j != i);
            assert(raw_rank(w2[i].0) <= raw_rank(w2[j].0));
            let m = choose|m: int| 0 <= m < w.len() && w[m] == w2[j];
            assert(w[m].0 != raw);
        }
    }
}

/// No signal's word is good for longer than an assertion's.
proof fn lemma_longest_window(raw: Seq<char>)
    ensures
        window(via_model(raw)) <= window(ViaModel::Asserted),
{
}

/// What a person's words say about presence depends only on the live ones:
/// two listings with the same live words agree on who is here.
proof fn lemma_believed_by_live(w1: Words, w2: Words, now: int, i: int)
    requires
        eligible(w1, i, now),
        forall|e: (Seq<char>, Said)| live(e.0, e.1, now) && w1.contains(e) ==> w2.contains(e),
        forall|e: (Seq<char>, Said)| live(e.0, e.1, now) && w2.contains(e) ==> w1.contains(e),
    ensures
        exists|j: int| #[trigger] eligible(w2, j, now),
{
    assert(w1.contains(w1[i]));
    let j = choose|j: int| 0 <= j < w2.len() && w2[j] == w1[i];
    assert forall|k: int|
        0 <= k < w2.len() && w2[k].1.word == Word::Missing && live(w2[k].0, w2[k].1, now)
            implies raw_rank(#[trigger] w2[k].0) <= raw_rank(w2[j].0) by {
        assert(w2.contains(w2[k]));
        let m = choose|m: int| 0 <= m < w1.len() && w1[m] == w2[k];
        assert(raw_rank(w1[m].0) <= raw_rank(w1[i].0));
    }
    assert(eligible(w2, j, now));
}

/// Forgetting what was said before `before_ms`, at least the longest window
/// behind `now`, keeps a person's live words exactly, and keeps them in key
/// order.
proof fn lemma_forget_keeps_live(heard: Heard, person: Seq<char>, before_ms: int, now: int)
    requires
        valid(heard),
        before_ms <= now - window(ViaModel::Asserted),
    ensures
        sorted_keys(words_of(heard, person)),
        sorted_keys(words_of(forget(heard, before_ms), person)),
        forall|e: (Seq<char>, Said)|
            live(e.0, e.1, now) ==> (words_of(heard, person).contains(e) <==> words_of(
                forget(heard, before_ms),
                person,
            ).contains(e)),
{
    broadcast use vstd::seq_lib::group_filter_ensures;

    let g = |w: Words| w.filter(said_since(before_ms));
    let shrunk = heard.map_values(|e: (Seq<char>, Words)| keep_recent(e, before_ms));
    assert(shrunk =~= map_vals(heard, g));
    lemma_map_vals(heard, g, person);
    lemma_lookup_filter(shrunk, has_words(), person);
    lemma_forget_valid(heard, before_ms);
    lemma_words_sorted(heard, person);
    lemma_words_sorted(forget(heard, before_ms), person);
    let w = words_of(heard, person);
    let w2 = words_of(forget(heard, before_ms), person);
    let kept = w.filter(said_since(before_ms));
    // The live words are the same on both sides: a live word is recent.
    assert forall|e: (Seq<char>, Said)| live(e.0, e.1, now) implies (w.contains(e) <==> w2.contains(
        e,
    )) by {
        lemma_longest_window(e.0);
        assert(said_since(before_ms)(e));
        if w.contains(e) {
            let k = choose|k: int| 0 <= k < w.len() && w[k] == e;
            w.lemma_filter_contains(said_since(before_ms), k);
            assert(kept.len() > 0);
        }
        if w2.contains(e) {
            w.lemma_filter_contains_rev(said_since(before_ms), e);
        }
    }
}

/// Forgetting old signals does not change who is here: once `before_ms` is
/// at least the longest window behind `now`, forgetting everything said
/// before it leaves every person's presence at `now` as it was.
pub proof fn lemma_forgetting_old_words_keeps_who_is_here(
    heard: Heard,
    person: Seq<char>,
    before_ms: int,
    now: int,
)
    requires
        valid(heard),
        before_ms <= now - window(ViaModel::Asserted),
    ensures
        believed(forget(heard, before_ms), person, now) == believed(heard, person, now),
{
    lemma_forget_keeps_live(heard, person, before_ms, now);
    let w = words_of(heard, person);
    let w2 = words_of(forget(heard, before_ms), person);
    if believed(heard, person, now) {
        let i = choose|i: int| #[trigger] eligible(w, i, now);
        lemma_believed_by_live(w, w2, now, i);
    }
    if believed(forget(heard, before_ms), person, now) {
        let j = choose|j: int| #[trigger] eligible(w2, j, now);
        lemma_believed_by_live(w2, w, now, j);
    }
}

/// In a listing in key order, an entry with the greater key comes later.
proof fn lemma_later_key(w: Words, i: int, j: int)
    requires
        sorted_keys(w),
        0 <= i < w.len(),
        0 <= j < w.len(),
        lex_lt(w[i].0, w[j].0),
    ensures
        i < j,
{
    if j == i {
        lemma_lex_irreflexive(w[i].0);
    } else if j < i {
        assert(lex_lt(w[j].0, w[i].0));
        lemma_lex_asymmetric(w[j].0, w[i].0);
    }
}

/// The signal a person's words give as the reason carries to another
/// listing in key order with the same live words: the same entry is the
/// reason there.
proof fn lemma_chosen_by_live(w1: Words, w2: Words, now: int, i: int) -> (j: int)
    requires
        sorted_keys(w1),
        sorted_keys(w2),
        chosen(w1, i, now),
        forall|e: (Seq<char>, Said)| live(e.0, e.1, now) && w1.contains(e) ==> w2.contains(e),
        forall|e: (Seq<char>, Said)| live(e.0, e.1, now) && w2.contains(e) ==> w1.contains(e),
    ensures
        chosen(w2, j, now),
        0 <= j < w2.len(),
        w2[j] == w1[i],
{
    assert(w1.contains(w1[i]));
    let j = choose|j: int| 0 <= j < w2.len() && w2[j] == w1[i];
    assert forall|k: int|
        0 <= k < w2.len() && w2[k].1.word == Word::Missing && live(w2[k].0, w2[k].1, now)
            implies raw_rank(#[trigger] w2[k].0) <= raw_rank(w2[j].0) by {
        assert(w2.contains(w2[k]));
        let m = choose|m: int| 0 <= m < w1.len() && w1[m] == w2[k];
        assert(raw_rank(w1[m].0) <= raw_rank(w1[i].0));
    }
    assert(eligible(w2, j, now));
    assert forall|j2: int| #[trigger] eligible(w2, j2, now) implies raw_rank(w2[j2].0) <= raw_rank(
        w2[j].0,
    ) && (j < j2 ==> raw_rank(w2[j2].0) < raw_rank(w2[j].0)) by {
        assert(w2.contains(w2[j2]));
        let m = choose|m: int| 0 <= m < w1.len() && w1[m] == w2[j2];
        assert forall|k: int|
            0 <= k < w1.len() && w1[k].1.word == Word::Missing && live(w1[k].0, w1[k].1, now)
                implies raw_rank(#[trigger] w1[k].0) <= raw_rank(w1[m].0) by {
            assert(w1.contains(w1[k]));
            let n = choose|n: int| 0 <= n < w2.len() && w2[n] == w1[k];
            assert(raw_rank(w2[n].0) <= raw_rank(w2[j2].0));
        }
        assert(eligible(w1, m, now));
        if j < j2 {
            assert(lex_lt(w2[j].0, w2[j2].0));
            lemma_later_key(w1, i, m);
        }
    }
    j
}

/// Forgetting old signals does not change why the room believes in anyone:
/// once `before_ms` is at least the longest window behind `now`, the signal
/// given as the reason for a person at `now` after forgetting is the one
/// given before, and a person believed in by nothing stays so.
pub proof fn lemma_forgetting_old_words_keeps_the_reason(
    heard: Heard,
    person: Seq<char>,
    before_ms: int,
    now: int,
    v: Option<ViaModel>,
)
    requires
        valid(heard),
        before_ms <= now - window(ViaModel::Asserted),
    ensures
        reason(words_of(forget(heard, before_ms), person), now, v) == reason(
            words_of(heard, person),
            now,
            v,
        ),
{
    lemma_forget_keeps_live(heard, person, before_ms, now);
    lemma_forgetting_old_words_keeps_who_is_here(heard, person, before_ms, now);
    let w = words_of(heard, person);
    let w2 = words_of(forget(heard, before_ms), person);
    if let Some(x) = v {
        if reason(w, now, v) {
            let i = choose|i: int| #[trigger] chosen(w, i, now) && x == via_model(w[i].0);
            let j = lemma_chosen_by_live(w, w2, now, i);
            assert(chosen(w2, j, now) && x == via_model(w2[j].0));
        }
        if reason(w2, now, v) {
            let j = choose|j: int| #[trigger] chosen(w2, j, now) && x == via_model(w2[j].0);
            let i = lemma_chosen_by_live(w2, w, now, j);
            assert(chosen(w, i, now) && x == via_model(w[i].0));
        }
    } else {
        if !reason(w, now, v) {
            let i = choose|i: int| #[trigger] eligible(w, i, now);
            assert(believed(heard, person, now));
        }
        if !reason(w2, now, v) {
            let i = choose|i: int| #[trigger] eligible(w2, i, now);
            assert(believed(forget(heard, before_ms), person, now));
        }
    }
}

/// Anyone the room believes in is among the people it has heard of.
proof fn lemma_believed_has_key(heard: Heard, person: Seq<char>, now: int)
    requires
        believed(heard, person, now),
    ensures
        keys_of(heard).contains(person),
{
    lemma_lookup_found(heard, person);
    let i = choose|i: int| #[trigger] eligible(words_of(heard, person), i, now);
    if let Some(w) = lookup(heard, person) {
        let k = choose|k: int| 0 <= k < heard.len() && #[trigger] heard[k] == (person, w);
        assert(keys_of(heard)[k] == person);
    }
}

/// Forgetting old signals does not change who is listed as here: once
/// `before_ms` is at least the longest window behind `now`, the people
/// believed in at `now`, in order, are those believed in before.
pub proof fn lemma_forgetting_old_words_keeps_the_present_list(
    heard: Heard,
    before_ms: int,
    now: int,
)
    requires
        valid(heard),
        before_ms <= now - window(ViaModel::Asserted),
    ensures
        keys_of(forget(heard, before_ms)).filter(
            |p: Seq<char>| believed(forget(heard, before_ms), p, now),
        ) == keys_of(heard).filter(|p: Seq<char>| believed(heard, p, now)),
{
    broadcast use vstd::seq_lib::group_filter_ensures;

    let f = forget(heard, before_ms);
    let pa = |p: Seq<char>| believed(f, p, now);
    let pb = |p: Seq<char>| believed(heard, p, now);
    let a = keys_of(f).filter(pa);
    let b = keys_of(heard).filter(pb);
    lemma_forget_valid(heard, before_ms);
    lemma_keys_ascending(f);
    lemma_keys_ascending(heard);
    lemma_filter_ascending(keys_of(f), pa);
    lemma_filter_ascending(keys_of(heard), pb);
    assert forall|x: Seq<char>| a.contains(x) <==> b.contains(x) by {
        lemma_forgetting_old_words_keeps_who_is_here(heard, x, before_ms, now);
        if believed(heard, x, now) {
            lemma_believed_has_key(heard, x, now);
            lemma_believed_has_key(f, x, now);
            let i = choose|i: int| 0 <= i < keys_of(heard).len() && keys_of(heard)[i] == x;
            keys_of(heard).lemma_filter_contains(pb, i);
            let j = choose|j: int| 0 <= j < keys_of(f).len() && keys_of(f)[j] == x;
            keys_of(f).lemma_filter_contains(pa, j);
        }
        if a.contains(x) {
            keys_of(f).lemma_filter_contains_rev(pa, x);
        }
        if b.contains(x) {
            keys_of(heard).lemma_filter_contains_rev(pb, x);
        }
    }
    assert(a.to_set() =~= b.to_set());
    lemma_sorted_unique(a, b);
}

/// A person's words give at most one reason: the signal the room trusts
/// for them at `now` is determined.
pub proof fn lemma_one_reason(words: Words, now: int, v1: Option<ViaModel>, v2: Option<ViaModel>)
    requires
        reason(words, now, v1),
        reason(words, now, v2),
    ensures
        v1 == v2,
{
    match (v1, v2) {
        (Some(x), Some(y)) => {
            let i = choose|i: int| #[trigger] chosen(words, i, now) && x == via_model(words[i].0);
            let j = choose|j: int| #[trigger] chosen(words, j, now) && y == via_model(words[j].0);
            if i < j {
                assert(eligible(words, j, now));
            } else if j < i {
                assert(eligible(words, i, now));
            }
        },
        (Some(x), None) => {
            let i = choose|i: int| #[trigger] chosen(words, i, now) && x == via_model(words[i].0);
            assert(eligible(words, i, now));
        },
        (None, Some(y)) => {
            let j = choose|j: int| #[trigger] chosen(words, j, now) && y == via_model(words[j].0);
            assert(eligible(words, j, now));
        },
        (None, None) => {},
    }
}

/// Forgetting drops a person nothing was said about at or after
/// `before_ms`: no word of theirs is left, and the room believes in them at
/// no time.
pub proof fn lemma_forgetting_drops_the_silent(heard: Heard, person: Seq<char>, before_ms: int, u: int)
    requires
        valid(heard),
        forall|k: int|
            0 <= k < words_of(heard, person).len() ==> (#[trigger] words_of(heard, person)[k]).1.at_ms
                < before_ms,
    ensures
        words_of(forget(heard, before_ms), person).len() == 0,
        !believed(forget(heard, before_ms), person, u),
{
    broadcast use vstd::seq_lib::group_filter_ensures;

    let g = |w: Words| w.filter(said_since(before_ms));
    let shrunk = heard.map_values(|e: (Seq<char>, Words)| keep_recent(e, before_ms));
    assert(shrunk =~= map_vals(heard, g));
    lemma_map_vals(heard, g, person);
    lemma_lookup_filter(shrunk, has_words(), person);
    let w = words_of(heard, person);
    let kept = w.filter(said_since(before_ms));
    if kept.len() > 0 {
        assert(kept.contains(kept[0]));
        w.lemma_filter_contains_rev(said_since(before_ms), kept[0]);
        let k = choose|k: int| 0 <= k < w.len() && w[k] == kept[0];
        assert(w[k].1.at_ms < before_ms);
    }
    let w2 = words_of(forget(heard, before_ms), person);
    assert forall|i: int| !#[trigger] eligible(w2, i, u) by {}
}

/// The signals are trusted in a strict order: an assertion over BLE, BLE
/// over a wifi lease, a wifi lease over the heartbeat, and the heartbeat
/// over any signal this house does not know.
pub proof fn lemma_signals_are_strictly_ordered(other: Seq<char>)
    ensures
        rank(ViaModel::Asserted) > rank(ViaModel::Ble),
        rank(ViaModel::Ble) > rank(ViaModel::Wifi),
        rank(ViaModel::Wifi) > rank(ViaModel::Heartbeat),
        rank(ViaModel::Heartbeat) > rank(ViaModel::Other(other)),
{
}

/// A live word from a signal that looked and did not find someone puts out
/// every live sighting of them from a weaker signal: while it stands, only
/// a signal at least as strong can be why the room believes in them. So a
/// wifi lease that lost the phone overrules a heartbeat, but not BLE.
pub proof fn lemma_an_absence_overrules_weaker_sightings(w: Words, now: int, k: int, i: int)
    requires
        0 <= k < w.len(),
        w[k].1.word == Word::Missing,
        live(w[k].0, w[k].1, now),
        eligible(w, i, now),
    ensures
        via_model(w[k].0) is Asserted ==> via_model(w[i].0) is Asserted,
        via_model(w[k].0) is Ble ==> via_model(w[i].0) is Asserted || via_model(w[i].0) is Ble,
        via_model(w[k].0) is Wifi ==> !(via_model(w[i].0) is Heartbeat) && !(via_model(
            w[i].0,
        ) is Other),
        via_model(w[k].0) is Heartbeat ==> !(via_model(w[i].0) is Other),
{
    assert(raw_rank(w[k].0) <= raw_rank(w[i].0));
}

} // verus!
