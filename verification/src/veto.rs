//! When a veto wins.
//!
//! The rule is "majority veto skips", and the whole question is *majority of
//! whom*. The answer is **presence** — who is in the room — and never
//! *attention*, which is who is looking at their phone this second.
//!
//! Kept as one set of pure functions, deliberately apart from the queue
//! projection. The queue's job is to know what a track's votes are; this
//! decides what they mean.

use vstd::prelude::*;

use crate::strset::{sorted_strs, views, StrSet};
use crate::text::{lemma_lex_irreflexive, str_eq};

verus! {

/// Fewest votes that can ever skip a track.
///
/// One person in a room of one is not a majority overruling anyone — that is
/// just skipping, and there is a skip button for it.
pub const MIN_VOTES: usize = 2;

/// Votes a track needs in a room of `n`: a strict majority, never fewer than
/// [`MIN_VOTES`].
pub open spec fn needed_for(n: nat) -> nat {
    let majority = n / 2 + 1;
    if majority >= MIN_VOTES as nat {
        majority
    } else {
        MIN_VOTES as nat
    }
}

/// The votes cast by people still in the room.
pub open spec fn counted_votes(votes: Seq<Seq<char>>, present: Seq<Seq<char>>) -> Seq<Seq<char>> {
    votes.filter(|v: Seq<char>| present.contains(v))
}

/// Whether `votes` skip a track in a room holding `present`.
pub open spec fn skips(votes: Seq<Seq<char>>, present: Seq<Seq<char>>) -> bool {
    counted_votes(votes, present).len() >= needed_for(present.len())
}

/// Whether a set of voters skips a track in a room holding `present`: the
/// voters still in the room are enough.
pub open spec fn skips_set(votes: Set<Seq<char>>, present: Seq<Seq<char>>) -> bool {
    votes.filter(|v: Seq<char>| present.contains(v)).len() >= needed_for(present.len())
}

/// Whether these votes are enough to skip, given who is in the room.
///
/// A strict majority of those present, never fewer than [`MIN_VOTES`].
pub fn should_skip(votes: &StrSet, present: &[String]) -> (r: bool)
    ensures
        r == skips(votes@, views(present@)),
        r == skips_set(votes@.to_set(), views(present@)),
{
    let n = votes.len();
    proof {
        lemma_skips_by_set(votes@, views(present@));
    }
    counted(votes, present) >= needed(present)
}

/// A strictly sorted listing has no member twice.
proof fn lemma_sorted_no_duplicates(votes: Seq<Seq<char>>)
    requires
        sorted_strs(votes),
    ensures
        votes.no_duplicates(),
{
    assert forall|i: int, j: int| 0 <= i < votes.len() && 0 <= j < votes.len() && i != j
        implies votes[i] != votes[j] by {
        if i < j {
            assert(crate::text::lex_lt(votes[i], votes[j]));
            lemma_lex_irreflexive(votes[i]);
        } else {
            assert(crate::text::lex_lt(votes[j], votes[i]));
            lemma_lex_irreflexive(votes[j]);
        }
    }
}

/// The voters of a set who are still in the room.
pub open spec fn present_voters(votes: Set<Seq<char>>, present: Seq<Seq<char>>) -> Set<Seq<char>> {
    votes.filter(|v: Seq<char>| present.contains(v))
}

/// Counting a listing of voters is counting the set of them: each voter
/// counts once.
pub proof fn lemma_counted_by_set(votes: Seq<Seq<char>>, present: Seq<Seq<char>>)
    requires
        sorted_strs(votes),
    ensures
        counted_votes(votes, present).len() == present_voters(votes.to_set(), present).len(),
{
    let p = |v: Seq<char>| present.contains(v);
    let c = counted_votes(votes, present);
    lemma_sorted_no_duplicates(votes);
    lemma_no_dup_filter(votes, p);
    c.unique_seq_to_set();
    assert(c.to_set() =~= votes.to_set().filter(p)) by {
        broadcast use vstd::seq_lib::group_filter_ensures;

        assert forall|x: Seq<char>| c.to_set().contains(x) <==> votes.to_set().filter(p).contains(
            x,
        ) by {
            if c.contains(x) {
                votes.lemma_filter_contains_rev(p, x);
                let k = choose|k: int| 0 <= k < c.len() && c[k] == x;
                assert(p(c[k]));
            }
            if votes.contains(x) && p(x) {
                let k = choose|k: int| 0 <= k < votes.len() && votes[k] == x;
                assert(c.contains(votes[k]));
            }
        }
    }
    assert(present_voters(votes.to_set(), present) == votes.to_set().filter(p));
}

/// Whether a listing of voters skips is whether the set of them does.
pub proof fn lemma_skips_by_set(votes: Seq<Seq<char>>, present: Seq<Seq<char>>)
    requires
        sorted_strs(votes),
    ensures
        skips(votes, present) == skips_set(votes.to_set(), present),
{
    lemma_counted_by_set(votes, present);
    assert(present_voters(votes.to_set(), present) == votes.to_set().filter(
        |v: Seq<char>| present.contains(v),
    ));
}

/// How many votes a track needs right now.
///
/// Exposed so the phone can render "2/3" rather than making the surface
/// re-derive a rule that lives here.
pub fn needed(present: &[String]) -> (r: usize)
    ensures
        r == needed_for(present@.len()),
{
    let majority = present.len() / 2 + 1;
    if majority >= MIN_VOTES {
        majority
    } else {
        MIN_VOTES
    }
}

/// Whether `who` is one of `people`.
pub fn is_among(who: &str, people: &[String]) -> (r: bool)
    ensures
        r == views(people@).contains(who@),
{
    let mut i: usize = 0;
    while i < people.len()
        invariant
            i <= people@.len(),
            forall|j: int| 0 <= j < i ==> views(people@)[j] != who@,
        decreases people@.len() - i,
    {
        if str_eq(people[i].as_str(), who) {
            assert(views(people@)[i as int] == who@);
            return true;
        }
        i = i + 1;
    }
    proof {
        true_if_found(people@, who@);
    }
    false
}

proof fn true_if_found(people: Seq<String>, who: Seq<char>)
    requires
        forall|j: int| 0 <= j < people.len() ==> views(people)[j] != who,
    ensures
        !views(people).contains(who),
{
    if views(people).contains(who) {
        let j = choose|j: int| 0 <= j < views(people).len() && views(people)[j] == who;
        assert(views(people)[j] == who);
    }
}

proof fn lemma_filter_step(s: Seq<Seq<char>>, present: Seq<Seq<char>>, i: int)
    requires
        0 <= i < s.len(),
    ensures
        counted_votes(s.subrange(0, i + 1), present) == if present.contains(s[i]) {
            counted_votes(s.subrange(0, i), present).push(s[i])
        } else {
            counted_votes(s.subrange(0, i), present)
        },
{
    reveal(Seq::filter);
    assert(s.subrange(0, i + 1).drop_last() =~= s.subrange(0, i));
    assert(s.subrange(0, i + 1).last() == s[i]);
}

/// How many of these votes count — those from people still in the room.
///
/// Someone who voted and then left does not get to keep voting from the
/// driveway, but their vote is not an error either: it simply stops counting.
pub fn counted(votes: &StrSet, present: &[String]) -> (r: usize)
    ensures
        r == counted_votes(votes@, views(present@)).len(),
{
    let n = votes.len();
    let mut count: usize = 0;
    let mut i: usize = 0;
    assert(votes@.subrange(0, 0).filter(|v: Seq<char>| views(present@).contains(v)) =~= Seq::<
        Seq<char>,
    >::empty()) by {
        reveal(Seq::filter);
    }
    while i < n
        invariant
            n == votes@.len(),
            i <= n,
            count as int == counted_votes(votes@.subrange(0, i as int), views(present@)).len(),
            count <= i,
        decreases n - i,
    {
        proof {
            lemma_filter_step(votes@, views(present@), i as int);
        }
        if is_among(votes.at(i).as_str(), present) {
            count = count + 1;
        }
        i = i + 1;
    }
    assert(votes@.subrange(0, n as int) =~= votes@);
    count
}

proof fn lemma_no_dup_filter(s: Seq<Seq<char>>, p: spec_fn(Seq<char>) -> bool)
    requires
        s.no_duplicates(),
    ensures
        s.filter(p).no_duplicates(),
    decreases s.len(),
{
    reveal(Seq::filter);
    if s.len() > 0 {
        let rest = s.drop_last();
        assert(rest.no_duplicates()) by {
            assert forall|i: int, j: int| 0 <= i < rest.len() && 0 <= j < rest.len() && i != j
                implies rest[i] != rest[j] by {
                assert(rest[i] == s[i] && rest[j] == s[j]);
            }
        }
        lemma_no_dup_filter(rest, p);
        if p(s.last()) {
            let f = rest.filter(p);
            if f.contains(s.last()) {
                rest.lemma_filter_contains_rev(p, s.last());
                let k = choose|k: int| 0 <= k < rest.len() && rest[k] == s.last();
                assert(s[k] == s[s.len() - 1]);
            }
            assert(s.filter(p) == f.push(s.last()));
            assert forall|i: int, j: int| 0 <= i < f.push(s.last()).len() && 0 <= j < f.push(
                s.last(),
            ).len() && i != j implies f.push(s.last())[i] != f.push(s.last())[j] by {
                if i < f.len() && j < f.len() {
                } else if i < f.len() {
                    assert(f.contains(f[i]));
                } else if j < f.len() {
                    assert(f.contains(f[j]));
                }
            }
        }
    }
}

/// A vote is counted only once however it is listed, so no more votes can
/// count than there are people in the room.
pub proof fn lemma_counted_at_most_present(votes: Seq<Seq<char>>, present: Seq<Seq<char>>)
    requires
        sorted_strs(votes),
    ensures
        counted_votes(votes, present).len() <= present.len(),
{
    let c = counted_votes(votes, present);
    assert(c.no_duplicates()) by {
        assert(votes.no_duplicates()) by {
            assert forall|i: int, j: int| 0 <= i < votes.len() && 0 <= j < votes.len() && i != j
                implies votes[i] != votes[j] by {
                if i < j {
                    assert(crate::text::lex_lt(votes[i], votes[j]));
                    lemma_lex_irreflexive(votes[i]);
                } else {
                    assert(crate::text::lex_lt(votes[j], votes[i]));
                    lemma_lex_irreflexive(votes[j]);
                }
            }
        }
        lemma_no_dup_filter(votes, |v: Seq<char>| present.contains(v));
    }
    assert(c.to_set().subset_of(present.to_set())) by {
        assert forall|x: Seq<char>| c.to_set().contains(x) implies present.to_set().contains(x) by {
            assert(c.contains(x));
            votes.lemma_filter_contains_rev(|v: Seq<char>| present.contains(v), x);
        }
    }
    c.unique_seq_to_set();
    present.lemma_cardinality_of_set();
    vstd::set_lib::lemma_len_subset(c.to_set(), present.to_set());
}

/// With fewer than two people in the room nothing can be vetoed: one
/// person alone cannot overrule anyone, and an empty room has nobody to vote.
pub proof fn lemma_a_lone_listener_cannot_veto(votes: Seq<Seq<char>>, present: Seq<Seq<char>>)
    requires
        sorted_strs(votes),
        present.len() < MIN_VOTES,
    ensures
        !skips(votes, present),
{
    lemma_counted_at_most_present(votes, present);
}

/// A veto that carries is a strict majority of the room and at least
/// [`MIN_VOTES`] votes.
pub proof fn lemma_a_carried_veto_is_a_strict_majority(
    votes: Seq<Seq<char>>,
    present: Seq<Seq<char>>,
)
    requires
        skips(votes, present),
    ensures
        counted_votes(votes, present).len() >= MIN_VOTES,
        2 * counted_votes(votes, present).len() > present.len(),
{
}

} // verus!
