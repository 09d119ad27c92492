//! A set of strings kept in `String` order.
//!
//! Stands where the daemon keeps a `BTreeSet<String>`: who is in the room,
//! who has voted against a track. Its view is the members in order, which
//! is the one sequence a set of strings has when it is listed sorted.

use vstd::prelude::*;

use crate::strmap::{
    has_key, insert_spec, keys_of, lemma_has_key_at_lower_bound, lemma_insert_spec,
    lemma_remove_spec, remove_spec, sorted_keys, StrMap,
};
use crate::text::lex_lt;

verus! {

/// Strictly increasing in `String` order: sorted, and nothing twice.
pub open spec fn sorted_strs(s: Seq<Seq<char>>) -> bool {
    forall|i: int, j: int| 0 <= i < j < s.len() ==> lex_lt(#[trigger] s[i], #[trigger] s[j])
}

/// The string views of a slice of strings.
pub open spec fn views(v: Seq<String>) -> Seq<Seq<char>> {
    v.map_values(|s: String| s@)
}

/// A set of strings, listed in order.
#[derive(Debug, PartialEq, Eq)]
pub struct StrSet {
    map: StrMap<()>,
}

proof fn lemma_keys_sorted(s: Seq<(Seq<char>, ())>)
    requires
        sorted_keys(s),
    ensures
        sorted_strs(keys_of(s)),
        forall|k: Seq<char>| keys_of(s).contains(k) <==> has_key(s, k),
{
    assert forall|i: int, j: int| 0 <= i < j < keys_of(s).len() implies lex_lt(
        #[trigger] keys_of(s)[i],
        #[trigger] keys_of(s)[j],
    ) by {
        assert(keys_of(s)[i] == s[i].0);
        assert(keys_of(s)[j] == s[j].0);
    }
    assert forall|k: Seq<char>| keys_of(s).contains(k) <==> has_key(s, k) by {
        if keys_of(s).contains(k) {
            let i = choose|i: int| 0 <= i < keys_of(s).len() && keys_of(s)[i] == k;
            assert(s[i].0 == k);
        }
        if has_key(s, k) {
            let i = choose|i: int| 0 <= i < s.len() && #[trigger] s[i].0 == k;
            assert(keys_of(s)[i] == k);
        }
    }
}

impl View for StrSet {
    type V = Seq<Seq<char>>;

    closed spec fn view(&self) -> Seq<Seq<char>> {
        keys_of(self.map@)
    }
}

impl StrSet {
    /// An empty set.
    pub fn new() -> (r: Self)
        ensures
            r@ == Seq::<Seq<char>>::empty(),
    {
        let r = StrSet { map: StrMap::new() };
        assert(r@ =~= Seq::<Seq<char>>::empty());
        r
    }

    /// How many members. Also states that the members are listed in order.
    pub fn len(&self) -> (r: usize)
        ensures
            r == self@.len(),
            sorted_strs(self@),
    {
        let n = self.map.len();
        proof {
            lemma_keys_sorted(self.map@);
        }
        n
    }

    /// Whether the set has no members.
    pub fn is_empty(&self) -> (r: bool)
        ensures
            r == (self@.len() == 0),
    {
        self.map.len() == 0
    }

    /// The member at position `i` of the ordered listing.
    pub fn at(&self, i: usize) -> (r: &String)
        requires
            i < self@.len(),
        ensures
            r@ == self@[i as int],
    {
        self.map.key_at(i)
    }

    /// Whether `k` is a member.
    pub fn contains(&self, k: &str) -> (r: bool)
        ensures
            r == self@.contains(k@),
    {
        let found = self.map.find(k);
        proof {
            lemma_keys_sorted(self.map@);
        }
        found.is_some()
    }

    /// Add `k`. Returns whether it was new.
    pub fn insert(&mut self, k: String) -> (r: bool)
        ensures
            sorted_strs(final(self)@),
            final(self)@.to_set() == old(self)@.to_set().insert(k@),
            r == !old(self)@.contains(k@),
    {
        let ghost before = self.map@;
        let present = self.map.find(k.as_str()).is_some();
        let ghost key = k@;
        self.map.insert(k, ());
        proof {
            lemma_insert_spec(before, key, ());
            lemma_keys_sorted(before);
            lemma_keys_sorted(self.map@);
            assert(self.map@ == insert_spec(before, key, ()));
            assert(self@.to_set() =~= keys_of(before).to_set().insert(key)) by {
                assert forall|j: Seq<char>| self@.to_set().contains(j) <==> keys_of(
                    before,
                ).to_set().insert(key).contains(j) by {
                    assert(self@.contains(j) <==> has_key(self.map@, j));
                    assert(keys_of(before).contains(j) <==> has_key(before, j));
                }
            }
        }
        !present
    }

    /// Remove `k`. Returns whether it was a member.
    pub fn remove(&mut self, k: &str) -> (r: bool)
        ensures
            sorted_strs(final(self)@),
            final(self)@.to_set() == old(self)@.to_set().remove(k@),
            r == old(self)@.contains(k@),
    {
        let ghost before = self.map@;
        let present = self.map.find(k).is_some();
        self.map.remove(k);
        proof {
            lemma_remove_spec(before, k@);
            lemma_keys_sorted(before);
            lemma_keys_sorted(self.map@);
            assert(self.map@ == remove_spec(before, k@));
            assert(self@.to_set() =~= keys_of(before).to_set().remove(k@)) by {
                assert forall|j: Seq<char>| self@.to_set().contains(j) <==> keys_of(
                    before,
                ).to_set().remove(k@).contains(j) by {
                    assert(self@.contains(j) <==> has_key(self.map@, j));
                    assert(keys_of(before).contains(j) <==> has_key(before, j));
                }
            }
        }
        present
    }

    /// A copy of this set.
    pub fn duplicate(&self) -> (r: Self)
        ensures
            r@ == self@,
    {
        StrSet { map: self.map.duplicate() }
    }

    /// The members, in order.
    pub fn to_vec(&self) -> (r: Vec<String>)
        ensures
            views(r@) == self@,
    {
        let n = self.len();
        let mut out: Vec<String> = Vec::new();
        let mut i: usize = 0;
        while i < n
            invariant
                n == self@.len(),
                i <= n,
                views(out@) == self@.subrange(0, i as int),
            decreases n - i,
        {
            let item = self.at(i).clone();
            let ghost prev = out@;
            out.push(item);
            assert(out@ == prev.push(item));
            assert(views(out@) =~= views(prev).push(item@));
            i = i + 1;
            assert(views(out@) =~= self@.subrange(0, i as int));
        }
        assert(self@.subrange(0, n as int) =~= self@);
        out
    }
}

/// The keys of a map kept in key order are strictly ascending.
pub proof fn lemma_keys_ascending<T>(s: Seq<(Seq<char>, T)>)
    requires
        sorted_keys(s),
    ensures
        sorted_strs(keys_of(s)),
{
    assert forall|i: int, j: int| 0 <= i < j < keys_of(s).len() implies lex_lt(
        #[trigger] keys_of(s)[i],
        #[trigger] keys_of(s)[j],
    ) by {
        assert(keys_of(s)[i] == s[i].0);
        assert(keys_of(s)[j] == s[j].0);
    }
}

/// Keeping some of a strictly ascending listing keeps it strictly
/// ascending.
pub proof fn lemma_filter_ascending(s: Seq<Seq<char>>, p: spec_fn(Seq<char>) -> bool)
    requires
        sorted_strs(s),
    ensures
        sorted_strs(s.filter(p)),
    decreases s.len(),
{
    reveal(Seq::filter);
    if s.len() > 0 {
        let d = s.drop_last();
        assert(sorted_strs(d)) by {
            assert forall|i: int, j: int| 0 <= i < j < d.len() implies lex_lt(
                #[trigger] d[i],
                #[trigger] d[j],
            ) by {
                assert(d[i] == s[i] && d[j] == s[j]);
            }
        }
        lemma_filter_ascending(d, p);
        let sub = d.filter(p);
        if p(s.last()) {
            let r = sub.push(s.last());
            assert forall|i: int, j: int| 0 <= i < j < r.len() implies lex_lt(
                #[trigger] r[i],
                #[trigger] r[j],
            ) by {
                if j == r.len() - 1 {
                    assert(sub.contains(r[i]));
                    d.lemma_filter_contains_rev(p, r[i]);
                    let m = choose|m: int| 0 <= m < d.len() && d[m] == r[i];
                    assert(s[m] == d[m]);
                    assert(lex_lt(s[m], s[s.len() - 1]));
                } else {
                    assert(r[i] == sub[i] && r[j] == sub[j]);
                }
            }
        }
    }
}

/// Two strictly sorted listings of the same members are the same listing.
pub proof fn lemma_sorted_unique(a: Seq<Seq<char>>, b: Seq<Seq<char>>)
    requires
        sorted_strs(a),
        sorted_strs(b),
        a.to_set() == b.to_set(),
    ensures
        a == b,
    decreases a.len(),
{
    if a.len() == 0 {
        if b.len() > 0 {
            assert(b.to_set().contains(b[0]));
            assert(!a.to_set().contains(b[0]));
        }
        assert(a =~= b);
    } else if b.len() == 0 {
        assert(a.to_set().contains(a[0]));
        assert(!b.to_set().contains(a[0]));
    } else {
        // The least member heads both listings.
        assert(a.to_set().contains(a[0]));
        assert(b.to_set().contains(b[0]));
        assert(b.contains(a[0]));
        assert(a.contains(b[0]));
        let i = choose|i: int| 0 <= i < b.len() && b[i] == a[0];
        let j = choose|j: int| 0 <= j < a.len() && a[j] == b[0];
        if i > 0 && j > 0 {
            assert(lex_lt(b[0], b[i]));
            assert(lex_lt(a[0], a[j]));
            crate::text::lemma_lex_asymmetric(a[0], b[0]);
        }
        if i > 0 && j == 0 {
            assert(a[0] == b[0]);
        }
        assert(a[0] == b[0]) by {
            if i > 0 {
                assert(lex_lt(b[0], b[i]));
                if j > 0 {
                    assert(lex_lt(a[0], a[j]));
                    crate::text::lemma_lex_asymmetric(a[0], b[0]);
                }
            }
        }
        let ta = a.drop_first();
        let tb = b.drop_first();
        assert(sorted_strs(ta)) by {
            assert forall|x: int, y: int| 0 <= x < y < ta.len() implies lex_lt(
                #[trigger] ta[x],
                #[trigger] ta[y],
            ) by {
                assert(ta[x] == a[x + 1] && ta[y] == a[y + 1]);
            }
        }
        assert(sorted_strs(tb)) by {
            assert forall|x: int, y: int| 0 <= x < y < tb.len() implies lex_lt(
                #[trigger] tb[x],
                #[trigger] tb[y],
            ) by {
                assert(tb[x] == b[x + 1] && tb[y] == b[y + 1]);
            }
        }
        assert(ta.to_set() =~= tb.to_set()) by {
            assert forall|s: Seq<char>| ta.to_set().contains(s) <==> tb.to_set().contains(s) by {
                if ta.contains(s) {
                    let x = choose|x: int| 0 <= x < ta.len() && ta[x] == s;
                    assert(a[x + 1] == s);
                    assert(lex_lt(a[0], s));
                    crate::text::lemma_lex_irreflexive(s);
                    assert(b.to_set().contains(s));
                    let y = choose|y: int| 0 <= y < b.len() && b[y] == s;
                    assert(y != 0);
                    assert(tb[y - 1] == s);
                }
                if tb.contains(s) {
                    let y = choose|y: int| 0 <= y < tb.len() && tb[y] == s;
                    assert(b[y + 1] == s);
                    assert(lex_lt(b[0], s));
                    crate::text::lemma_lex_irreflexive(s);
                    assert(a.to_set().contains(s));
                    let x = choose|x: int| 0 <= x < a.len() && a[x] == s;
                    assert(x != 0);
                    assert(ta[x - 1] == s);
                }
            }
        }
        lemma_sorted_unique(ta, tb);
        assert(a =~= seq![a[0]] + ta);
        assert(b =~= seq![b[0]] + tb);
    }
}

} // verus!
