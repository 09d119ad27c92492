//! A map keyed by strings that keeps its keys in `String` order.
//!
//! Stands where the daemon keeps a `BTreeMap<String, _>` or a
//! `BTreeSet<String>`: every view in SESH that lists people lists them in a
//! stable alphabetical order, and this is what makes that order part of a
//! contract rather than a property of a library nobody here can read.

use vstd::prelude::*;

use crate::text::{
    lemma_lex_asymmetric, lemma_lex_irreflexive, lemma_lex_total, lemma_lex_transitive, lex_lt,
    str_eq, str_lt,
};

verus! {

/// Keys strictly increasing: sorted, and no key twice.
pub open spec fn sorted_keys<T>(s: Seq<(Seq<char>, T)>) -> bool {
    forall|i: int, j: int| 0 <= i < j < s.len() ==> lex_lt(#[trigger] s[i].0, #[trigger] s[j].0)
}

/// The number of entries whose key sorts before `k`. In a sorted map, the
/// position `k` has or would take.
pub open spec fn lower_bound<T>(s: Seq<(Seq<char>, T)>, k: Seq<char>) -> int
    decreases s.len(),
{
    if s.len() == 0 {
        0
    } else if lex_lt(s[0].0, k) {
        1 + lower_bound(s.drop_first(), k)
    } else {
        0
    }
}

/// Whether some entry has key `k`.
pub open spec fn has_key<T>(s: Seq<(Seq<char>, T)>, k: Seq<char>) -> bool {
    exists|i: int| 0 <= i < s.len() && #[trigger] s[i].0 == k
}

/// The value stored under `k`, if any (the first, though a sorted map has
/// at most one).
pub open spec fn lookup<T>(s: Seq<(Seq<char>, T)>, k: Seq<char>) -> Option<T>
    decreases s.len(),
{
    if s.len() == 0 {
        None
    } else if s[0].0 == k {
        Some(s[0].1)
    } else {
        lookup(s.drop_first(), k)
    }
}

/// `s` with `k` bound to `v`: replaced in place if present, otherwise
/// inserted where the order puts it.
pub open spec fn insert_spec<T>(s: Seq<(Seq<char>, T)>, k: Seq<char>, v: T) -> Seq<(Seq<char>, T)> {
    let p = lower_bound(s, k);
    if p < s.len() && s[p].0 == k {
        s.update(p, (k, v))
    } else {
        s.insert(p, (k, v))
    }
}

/// `s` without the entry for `k`.
pub open spec fn remove_spec<T>(s: Seq<(Seq<char>, T)>, k: Seq<char>) -> Seq<(Seq<char>, T)> {
    let p = lower_bound(s, k);
    if p < s.len() && s[p].0 == k {
        s.remove(p)
    } else {
        s
    }
}

/// The keys, in order.
pub open spec fn keys_of<T>(s: Seq<(Seq<char>, T)>) -> Seq<Seq<char>> {
    s.map_values(|e: (Seq<char>, T)| e.0)
}

/// In a sorted map, `lower_bound` splits the entries into those before `k`
/// and those not before it.
pub proof fn lemma_lower_bound<T>(s: Seq<(Seq<char>, T)>, k: Seq<char>)
    requires
        sorted_keys(s),
    ensures
        0 <= lower_bound(s, k) <= s.len(),
        forall|i: int| 0 <= i < lower_bound(s, k) ==> lex_lt(#[trigger] s[i].0, k),
        forall|i: int| lower_bound(s, k) <= i < s.len() ==> !lex_lt(#[trigger] s[i].0, k),
    decreases s.len(),
{
    if s.len() > 0 {
        let t = s.drop_first();
        assert(sorted_keys(t)) by {
            assert forall|i: int, j: int| 0 <= i < j < t.len() implies lex_lt(
                #[trigger] t[i].0,
                #[trigger] t[j].0,
            ) by {
                assert(t[i] == s[i + 1]);
                assert(t[j] == s[j + 1]);
            }
        }
        lemma_lower_bound(t, k);
        if lex_lt(s[0].0, k) {
            assert forall|i: int| 0 <= i < lower_bound(s, k) implies lex_lt(#[trigger] s[i].0, k) by {
                if i > 0 {
                    assert(s[i] == t[i - 1]);
                }
            }
            assert forall|i: int| lower_bound(s, k) <= i < s.len() implies !lex_lt(
                #[trigger] s[i].0,
                k,
            ) by {
                assert(s[i] == t[i - 1]);
            }
        } else {
            assert forall|i: int| 0 <= i < s.len() implies !lex_lt(#[trigger] s[i].0, k) by {
                if i > 0 && lex_lt(s[i].0, k) {
                    lemma_lex_transitive(s[0].0, s[i].0, k);
                }
            }
        }
    }
}

/// In a sorted map, `k` is present exactly when it sits at its lower bound.
pub proof fn lemma_has_key_at_lower_bound<T>(s: Seq<(Seq<char>, T)>, k: Seq<char>)
    requires
        sorted_keys(s),
    ensures
        has_key(s, k) <==> (lower_bound(s, k) < s.len() && s[lower_bound(s, k)].0 == k),
{
    lemma_lower_bound(s, k);
    let p = lower_bound(s, k);
    if has_key(s, k) {
        let i = choose|i: int| 0 <= i < s.len() && #[trigger] s[i].0 == k;
        lemma_lex_irreflexive(k);
        assert(i >= p);
        if i > p {
            lemma_lex_total(s[p].0, k);
            assert(lex_lt(s[p].0, s[i].0));
        }
    }
}

/// In a map with unique keys, `lookup` finds the entry holding `k`.
pub proof fn lemma_lookup_at<T>(s: Seq<(Seq<char>, T)>, i: int)
    requires
        sorted_keys(s),
        0 <= i < s.len(),
    ensures
        lookup(s, s[i].0) == Some(s[i].1),
    decreases s.len(),
{
    if i > 0 {
        let t = s.drop_first();
        assert(lex_lt(s[0].0, s[i].0));
        lemma_lex_irreflexive(s[0].0);
        assert(sorted_keys(t)) by {
            assert forall|a: int, b: int| 0 <= a < b < t.len() implies lex_lt(
                #[trigger] t[a].0,
                #[trigger] t[b].0,
            ) by {
                assert(t[a] == s[a + 1]);
                assert(t[b] == s[b + 1]);
            }
        }
        assert(t[i - 1] == s[i]);
        lemma_lookup_at(t, i - 1);
    }
}

/// `lookup` is `None` exactly for absent keys.
pub proof fn lemma_lookup_absent<T>(s: Seq<(Seq<char>, T)>, k: Seq<char>)
    requires
        !has_key(s, k),
    ensures
        lookup(s, k) is None,
    decreases s.len(),
{
    if s.len() > 0 {
        let t = s.drop_first();
        assert(!has_key(t, k)) by {
            if has_key(t, k) {
                let i = choose|i: int| 0 <= i < t.len() && #[trigger] t[i].0 == k;
                assert(s[i + 1].0 == k);
            }
        }
        lemma_lookup_absent(t, k);
    }
}

/// What `lookup` finds is an entry of the map, and when it finds nothing
/// the key is absent.
pub proof fn lemma_lookup_found<T>(s: Seq<(Seq<char>, T)>, k: Seq<char>)
    ensures
        match lookup(s, k) {
            Some(v) => exists|i: int| 0 <= i < s.len() && #[trigger] s[i] == (k, v),
            None => !has_key(s, k),
        },
    decreases s.len(),
{
    if s.len() > 0 {
        let t = s.drop_first();
        lemma_lookup_found(t, k);
        if s[0].0 != k {
            match lookup(t, k) {
                Some(v) => {
                    let i = choose|i: int| 0 <= i < t.len() && #[trigger] t[i] == (k, v);
                    assert(s[i + 1] == (k, v));
                },
                None => {
                    if has_key(s, k) {
                        let i = choose|i: int| 0 <= i < s.len() && #[trigger] s[i].0 == k;
                        assert(t[i - 1].0 == k);
                    }
                },
            }
        } else {
            assert(s[0] == (k, s[0].1));
        }
    }
}

/// In a sorted map two entries with one key are one entry.
pub proof fn lemma_key_unique<T>(s: Seq<(Seq<char>, T)>, i: int, j: int)
    requires
        sorted_keys(s),
        0 <= i < s.len(),
        0 <= j < s.len(),
        s[i].0 == s[j].0,
    ensures
        i == j,
{
    if i < j {
        assert(lex_lt(s[i].0, s[j].0));
        lemma_lex_irreflexive(s[i].0);
    } else if j < i {
        assert(lex_lt(s[j].0, s[i].0));
        lemma_lex_irreflexive(s[j].0);
    }
}

/// Dropping entries from a sorted map leaves it sorted.
pub proof fn lemma_filter_sorted<T>(s: Seq<(Seq<char>, T)>, p: spec_fn((Seq<char>, T)) -> bool)
    requires
        sorted_keys(s),
    ensures
        sorted_keys(s.filter(p)),
    decreases s.len(),
{
    reveal(Seq::filter);
    if s.len() > 0 {
        let d = s.drop_last();
        assert(sorted_keys(d)) by {
            assert forall|i: int, j: int| 0 <= i < j < d.len() implies lex_lt(
                #[trigger] d[i].0,
                #[trigger] d[j].0,
            ) by {
                assert(d[i] == s[i] && d[j] == s[j]);
            }
        }
        lemma_filter_sorted(d, p);
        let sub = d.filter(p);
        if p(s.last()) {
            let r = sub.push(s.last());
            assert forall|i: int, j: int| 0 <= i < j < r.len() implies lex_lt(
                #[trigger] r[i].0,
                #[trigger] r[j].0,
            ) by {
                if j == r.len() - 1 {
                    assert(sub.contains(r[i]));
                    d.lemma_filter_contains_rev(p, r[i]);
                    let m = choose|m: int| 0 <= m < d.len() && d[m] == r[i];
                    assert(s[m] == d[m]);
                    assert(lex_lt(s[m].0, s[s.len() - 1].0));
                } else {
                    assert(r[i] == sub[i] && r[j] == sub[j]);
                }
            }
        }
    }
}

/// Looking a key up in a filtered sorted map finds what the map held under
/// it, if that entry was kept.
pub proof fn lemma_lookup_filter<T>(
    s: Seq<(Seq<char>, T)>,
    p: spec_fn((Seq<char>, T)) -> bool,
    k: Seq<char>,
)
    requires
        sorted_keys(s),
    ensures
        lookup(s.filter(p), k) == match lookup(s, k) {
            Some(v) => if p((k, v)) {
                Some(v)
            } else {
                None
            },
            None => None,
        },
{
    broadcast use vstd::seq_lib::group_filter_ensures;

    let f = s.filter(p);
    lemma_filter_sorted(s, p);
    lemma_lookup_found(s, k);
    match lookup(s, k) {
        Some(v) => {
            let i = choose|i: int| 0 <= i < s.len() && #[trigger] s[i] == (k, v);
            if p((k, v)) {
                assert(f.contains(s[i]));
                let j = choose|j: int| 0 <= j < f.len() && f[j] == s[i];
                lemma_lookup_at(f, j);
            } else {
                assert(!has_key(f, k)) by {
                    if has_key(f, k) {
                        let j = choose|j: int| 0 <= j < f.len() && #[trigger] f[j].0 == k;
                        s.lemma_filter_contains_rev(p, f[j]);
                        let m = choose|m: int| 0 <= m < s.len() && s[m] == f[j];
                        lemma_key_unique(s, i, m);
                        assert(p(f[j]));
                    }
                }
                lemma_lookup_absent(f, k);
            }
        },
        None => {
            assert(!has_key(f, k)) by {
                if has_key(f, k) {
                    let j = choose|j: int| 0 <= j < f.len() && #[trigger] f[j].0 == k;
                    s.lemma_filter_contains_rev(p, f[j]);
                    let m = choose|m: int| 0 <= m < s.len() && s[m] == f[j];
                    assert(s[m].0 == k);
                }
            }
            lemma_lookup_absent(f, k);
        },
    }
}

/// Inserting keeps a map sorted, and binds the key.
#[verifier::rlimit(50)]
pub proof fn lemma_insert_spec<T>(s: Seq<(Seq<char>, T)>, k: Seq<char>, v: T)
    requires
        sorted_keys(s),
    ensures
        sorted_keys(insert_spec(s, k, v)),
        has_key(insert_spec(s, k, v), k),
        lookup(insert_spec(s, k, v), k) == Some(v),
        forall|j: Seq<char>| j != k ==> lookup(#[trigger] insert_spec(s, k, v), j) == lookup(s, j),
        forall|j: Seq<char>|
            has_key(#[trigger] insert_spec(s, k, v), j) <==> (j == k || has_key(s, j)),
{
    lemma_lower_bound(s, k);
    let p = lower_bound(s, k);
    let r = insert_spec(s, k, v);
    if p < s.len() && s[p].0 == k {
        assert(sorted_keys(r)) by {
            assert forall|i: int, j: int| 0 <= i < j < r.len() implies lex_lt(
                #[trigger] r[i].0,
                #[trigger] r[j].0,
            ) by {
                assert(r[i].0 == s[i].0);
                assert(r[j].0 == s[j].0);
            }
        }
        assert forall|j: Seq<char>| has_key(r, j) <==> (j == k || has_key(s, j)) by {
            if has_key(r, j) {
                let i = choose|i: int| 0 <= i < r.len() && #[trigger] r[i].0 == j;
                assert(s[i].0 == j);
            }
            if has_key(s, j) {
                let i = choose|i: int| 0 <= i < s.len() && #[trigger] s[i].0 == j;
                assert(r[i].0 == j);
            }
            if j == k {
                assert(r[p].0 == j);
            }
        }
        assert(r[p].0 == k);
        lemma_lookup_at(r, p);
        assert forall|j: Seq<char>| j != k implies lookup(#[trigger] insert_spec(s, k, v), j)
            == lookup(s, j) by {
            if has_key(s, j) {
                let i = choose|i: int| 0 <= i < s.len() && #[trigger] s[i].0 == j;
                assert(i != p);
                lemma_lookup_at(s, i);
                assert(r[i] == s[i]);
                lemma_lookup_at(r, i);
            } else {
                lemma_lookup_absent(s, j);
                assert(!has_key(r, j));
                lemma_lookup_absent(r, j);
            }
        }
    } else {
        // k is absent and every key from p on sorts after it.
        assert forall|i: int| p <= i < s.len() implies lex_lt(k, #[trigger] s[i].0) by {
            if i == p {
                lemma_lex_total(s[p].0, k);
            } else {
                lemma_lex_total(s[p].0, k);
                assert(lex_lt(s[p].0, s[i].0));
                lemma_lex_transitive(k, s[p].0, s[i].0);
            }
        }
        assert(sorted_keys(r)) by {
            assert forall|i: int, j: int| 0 <= i < j < r.len() implies lex_lt(
                #[trigger] r[i].0,
                #[trigger] r[j].0,
            ) by {
                if j < p {
                    assert(r[i] == s[i] && r[j] == s[j]);
                } else if j == p {
                    assert(r[i] == s[i]);
                } else if i < p {
                    assert(r[i] == s[i] && r[j] == s[j - 1]);
                    lemma_lex_transitive(s[i].0, k, s[j - 1].0);
                } else if i == p {
                    assert(r[j] == s[j - 1]);
                } else {
                    assert(r[i] == s[i - 1] && r[j] == s[j - 1]);
                }
            }
        }
        assert forall|j: Seq<char>| has_key(r, j) <==> (j == k || has_key(s, j)) by {
            if has_key(r, j) {
                let i = choose|i: int| 0 <= i < r.len() && #[trigger] r[i].0 == j;
                if i < p {
                    assert(s[i].0 == j);
                } else if i > p {
                    assert(s[i - 1].0 == j);
                }
            }
            if has_key(s, j) {
                let i = choose|i: int| 0 <= i < s.len() && #[trigger] s[i].0 == j;
                if i < p {
                    assert(r[i].0 == j);
                } else {
                    assert(r[i + 1].0 == j);
                }
            }
            if j == k {
                assert(r[p].0 == j);
            }
        }
        assert(r[p] == (k, v));
        lemma_lookup_at(r, p);
        assert forall|j: Seq<char>| j != k implies lookup(#[trigger] insert_spec(s, k, v), j)
            == lookup(s, j) by {
            if has_key(s, j) {
                let i = choose|i: int| 0 <= i < s.len() && #[trigger] s[i].0 == j;
                lemma_lookup_at(s, i);
                if i < p {
                    assert(r[i] == s[i]);
                    lemma_lookup_at(r, i);
                } else {
                    assert(r[i + 1] == s[i]);
                    lemma_lookup_at(r, i + 1);
                }
            } else {
                lemma_lookup_absent(s, j);
                assert(!has_key(r, j));
                lemma_lookup_absent(r, j);
            }
        }
    }
}

/// Removing keeps a map sorted and unbinds exactly that key.
pub proof fn lemma_remove_spec<T>(s: Seq<(Seq<char>, T)>, k: Seq<char>)
    requires
        sorted_keys(s),
    ensures
        sorted_keys(remove_spec(s, k)),
        !has_key(remove_spec(s, k), k),
        forall|j: Seq<char>| j != k ==> lookup(#[trigger] remove_spec(s, k), j) == lookup(s, j),
        forall|j: Seq<char>| has_key(#[trigger] remove_spec(s, k), j) <==> (j != k && has_key(s, j)),
{
    lemma_lower_bound(s, k);
    lemma_has_key_at_lower_bound(s, k);
    let p = lower_bound(s, k);
    let r = remove_spec(s, k);
    if p < s.len() && s[p].0 == k {
        assert(sorted_keys(r)) by {
            assert forall|i: int, j: int| 0 <= i < j < r.len() implies lex_lt(
                #[trigger] r[i].0,
                #[trigger] r[j].0,
            ) by {
                if j < p {
                    assert(r[i] == s[i] && r[j] == s[j]);
                } else if i < p {
                    assert(r[i] == s[i] && r[j] == s[j + 1]);
                } else {
                    assert(r[i] == s[i + 1] && r[j] == s[j + 1]);
                }
            }
        }
        assert forall|j: Seq<char>| has_key(r, j) <==> (j != k && has_key(s, j)) by {
            if has_key(r, j) {
                let i = choose|i: int| 0 <= i < r.len() && #[trigger] r[i].0 == j;
                if i < p {
                    assert(s[i].0 == j);
                    assert(lex_lt(s[i].0, s[p].0));
                    lemma_lex_irreflexive(j);
                } else {
                    assert(s[i + 1].0 == j);
                    assert(lex_lt(s[p].0, s[i + 1].0));
                    lemma_lex_irreflexive(j);
                }
            }
            if j != k && has_key(s, j) {
                let i = choose|i: int| 0 <= i < s.len() && #[trigger] s[i].0 == j;
                if i < p {
                    assert(r[i].0 == j);
                } else {
                    assert(i != p);
                    assert(r[i - 1].0 == j);
                }
            }
        }
        assert forall|j: Seq<char>| j != k implies lookup(#[trigger] remove_spec(s, k), j)
            == lookup(s, j) by {
            if has_key(s, j) {
                let i = choose|i: int| 0 <= i < s.len() && #[trigger] s[i].0 == j;
                lemma_lookup_at(s, i);
                if i < p {
                    assert(r[i] == s[i]);
                    lemma_lookup_at(r, i);
                } else {
                    assert(i != p);
                    assert(r[i - 1] == s[i]);
                    lemma_lookup_at(r, i - 1);
                }
            } else {
                lemma_lookup_absent(s, j);
                lemma_lookup_absent(r, j);
            }
        }
    }
}

/// The same entries with every value passed through `f`.
pub open spec fn map_vals<T, U>(s: Seq<(Seq<char>, T)>, f: spec_fn(T) -> U) -> Seq<(Seq<char>, U)> {
    s.map_values(|e: (Seq<char>, T)| (e.0, f(e.1)))
}

/// Mapping the values leaves the keys, and so every question about keys,
/// as it was.
pub proof fn lemma_map_vals<T, U>(s: Seq<(Seq<char>, T)>, f: spec_fn(T) -> U, k: Seq<char>)
    ensures
        map_vals(s, f).len() == s.len(),
        lower_bound(map_vals(s, f), k) == lower_bound(s, k),
        has_key(map_vals(s, f), k) == has_key(s, k),
        lookup(map_vals(s, f), k) == match lookup(s, k) {
            Some(v) => Some(f(v)),
            None => None,
        },
        sorted_keys(map_vals(s, f)) == sorted_keys(s),
    decreases s.len(),
{
    let m = map_vals(s, f);
    assert forall|i: int| 0 <= i < s.len() implies (#[trigger] m[i]).0 == s[i].0 by {}
    if s.len() > 0 {
        assert(m.drop_first() =~= map_vals(s.drop_first(), f));
        lemma_map_vals(s.drop_first(), f, k);
    }
    if has_key(s, k) {
        let i = choose|i: int| 0 <= i < s.len() && #[trigger] s[i].0 == k;
        assert(m[i].0 == k);
    }
    if has_key(m, k) {
        let i = choose|i: int| 0 <= i < m.len() && #[trigger] m[i].0 == k;
        assert(s[i].0 == k);
    }
    if sorted_keys(s) {
        assert forall|i: int, j: int| 0 <= i < j < m.len() implies lex_lt(
            #[trigger] m[i].0,
            #[trigger] m[j].0,
        ) by {
            assert(m[i].0 == s[i].0 && m[j].0 == s[j].0);
        }
    }
    if sorted_keys(m) {
        assert forall|i: int, j: int| 0 <= i < j < s.len() implies lex_lt(
            #[trigger] s[i].0,
            #[trigger] s[j].0,
        ) by {
            assert(m[i].0 == s[i].0 && m[j].0 == s[j].0);
        }
    }
}

/// Binding a key and then mapping the values is mapping and then binding
/// the mapped value.
pub proof fn lemma_map_vals_insert<T, U>(
    s: Seq<(Seq<char>, T)>,
    f: spec_fn(T) -> U,
    k: Seq<char>,
    v: T,
)
    requires
        sorted_keys(s),
    ensures
        map_vals(insert_spec(s, k, v), f) == insert_spec(map_vals(s, f), k, f(v)),
{
    lemma_map_vals(s, f, k);
    lemma_lower_bound(s, k);
    let p = lower_bound(s, k);
    if p < s.len() && s[p].0 == k {
        assert(map_vals(s, f)[p].0 == k);
        assert(map_vals(insert_spec(s, k, v), f) =~= insert_spec(map_vals(s, f), k, f(v)));
    } else {
        assert(!(p < map_vals(s, f).len() && map_vals(s, f)[p].0 == k));
        assert(map_vals(insert_spec(s, k, v), f) =~= insert_spec(map_vals(s, f), k, f(v)));
    }
}

/// Where an entry sits and what it holds, in a map with unique keys.
pub proof fn lemma_entry_at<T>(s: Seq<(Seq<char>, T)>, i: int)
    requires
        sorted_keys(s),
        0 <= i < s.len(),
    ensures
        lower_bound(s, s[i].0) == i,
        has_key(s, s[i].0),
        lookup(s, s[i].0) == Some(s[i].1),
{
    lemma_lower_bound(s, s[i].0);
    lemma_has_key_at_lower_bound(s, s[i].0);
    lemma_lookup_at(s, i);
    lemma_lex_irreflexive(s[i].0);
    let p = lower_bound(s, s[i].0);
    if p < i {
        assert(lex_lt(s[p].0, s[i].0));
    }
    if p > i {
        assert(!lex_lt(s[i].0, s[i].0));
    }
}

/// A map keyed by strings, kept in key order.
#[derive(Debug, PartialEq, Eq)]
pub struct StrMap<T> {
    entries: Vec<(String, T)>,
}

impl<T> View for StrMap<T> {
    type V = Seq<(Seq<char>, T)>;

    closed spec fn view(&self) -> Seq<(Seq<char>, T)> {
        self.entries@.map_values(|e: (String, T)| (e.0@, e.1))
    }
}

impl<T> StrMap<T> {
    #[verifier::type_invariant]
    closed spec fn inv(self) -> bool {
        sorted_keys(self@)
    }

    /// An empty map.
    pub fn new() -> (r: Self)
        ensures
            r@ == Seq::<(Seq<char>, T)>::empty(),
    {
        let r = StrMap { entries: Vec::new() };
        assert(r@ =~= Seq::<(Seq<char>, T)>::empty());
        r
    }

    /// How many keys are bound. Also states the order the keys are kept in.
    pub fn len(&self) -> (r: usize)
        ensures
            r == self@.len(),
            sorted_keys(self@),
    {
        proof {
            use_type_invariant(self);
        }
        self.entries.len()
    }

    /// The key at position `i`.
    pub fn key_at(&self, i: usize) -> (r: &String)
        requires
            i < self@.len(),
        ensures
            r@ == self@[i as int].0,
    {
        &self.entries[i].0
    }

    /// The value at position `i`.
    pub fn value_at(&self, i: usize) -> (r: &T)
        requires
            i < self@.len(),
        ensures
            *r == self@[i as int].1,
    {
        &self.entries[i].1
    }

    /// Where `k` sits, if it is bound.
    pub fn find(&self, k: &str) -> (r: Option<usize>)
        ensures
            sorted_keys(self@),
            r == (if has_key(self@, k@) {
                Some(lower_bound(self@, k@) as usize)
            } else {
                None::<usize>
            }),
            r matches Some(i) ==> i < self@.len() && self@[i as int].0 == k@,
    {
        proof {
            use_type_invariant(self);
        }
        let p = self.position(k);
        proof {
            lemma_has_key_at_lower_bound(self@, k@);
        }
        if p < self.entries.len() && str_eq(self.entries[p].0.as_str(), k) {
            Some(p)
        } else {
            None
        }
    }

    /// The value bound to `k`, if any.
    pub fn get(&self, k: &str) -> (r: Option<&T>)
        ensures
            match r {
                Some(v) => lookup(self@, k@) == Some(*v),
                None => lookup(self@, k@) is None,
            },
            r is Some <==> has_key(self@, k@),
    {
        match self.find(k) {
            Some(i) => {
                proof {
                    lemma_lookup_at(self@, i as int);
                }
                Some(&self.entries[i].1)
            },
            None => {
                proof {
                    lemma_lookup_absent(self@, k@);
                }
                None
            },
        }
    }

    /// Position `k` has or would take.
    fn position(&self, k: &str) -> (r: usize)
        ensures
            r == lower_bound(self@, k@),
    {
        proof {
            use_type_invariant(self);
            lemma_lower_bound(self@, k@);
        }
        let mut i: usize = 0;
        while i < self.entries.len()
            invariant
                sorted_keys(self@),
                i <= self@.len(),
                self@.len() == self.entries@.len(),
                forall|j: int| 0 <= j < i ==> lex_lt(#[trigger] self@[j].0, k@),
                0 <= lower_bound(self@, k@) <= self@.len(),
                forall|j: int| 0 <= j < lower_bound(self@, k@) ==> lex_lt(#[trigger] self@[j].0, k@),
                forall|j: int|
                    lower_bound(self@, k@) <= j < self@.len() ==> !lex_lt(#[trigger] self@[j].0, k@),
            decreases self.entries@.len() - i,
        {
            if !str_lt(self.entries[i].0.as_str(), k) {
                assert(!lex_lt(self@[i as int].0, k@));
                assert(lower_bound(self@, k@) == i) by {
                    let lb = lower_bound(self@, k@);
                    if lb < i {
                        assert(lex_lt(self@[lb].0, k@));
                    }
                }
                return i;
            }
            assert(lex_lt(self@[i as int].0, k@));
            i = i + 1;
        }
        assert(lower_bound(self@, k@) == i) by {
            let lb = lower_bound(self@, k@);
            if lb < i {
                assert(lex_lt(self@[lb].0, k@));
            }
        }
        i
    }

    /// Bind `k` to `v`, replacing any earlier value. Returns the earlier value.
    pub fn insert(&mut self, k: String, v: T) -> (r: Option<T>)
        ensures
            final(self)@ == insert_spec(old(self)@, k@, v),
            r == lookup(old(self)@, k@),
            lookup(final(self)@, k@) == Some(v),
            forall|j: Seq<char>| j != k@ ==> #[trigger] lookup(final(self)@, j) == lookup(old(self)@, j),
    {
        proof {
            use_type_invariant(&*self);
            lemma_insert_spec(self@, k@, v);
            lemma_has_key_at_lower_bound(self@, k@);
            lemma_lower_bound(self@, k@);
        }
        let ghost before = self@;
        let p = self.position(k.as_str());
        let mut entries: Vec<(String, T)> = Vec::new();
        std::mem::swap(&mut entries, &mut self.entries);
        assert(entries@.map_values(|e: (String, T)| (e.0@, e.1)) == before);
        assert(entries@.len() == before.len());
        let found = p < entries.len() && str_eq(entries[p].0.as_str(), k.as_str());
        let old_value;
        if found {
            proof {
                lemma_lookup_at(before, p as int);
            }
            let (_, prev) = entries.remove(p);
            entries.insert(p, (k, v));
            old_value = Some(prev);
        } else {
            proof {
                lemma_lookup_absent(before, k@);
            }
            entries.insert(p, (k, v));
            old_value = None;
        }
        let ghost after = entries@.map_values(|e: (String, T)| (e.0@, e.1));
        assert(after =~= insert_spec(before, k@, v));
        self.entries = entries;
        old_value
    }

    /// Unbind `k`. Returns the value it had.
    pub fn remove(&mut self, k: &str) -> (r: Option<T>)
        ensures
            final(self)@ == remove_spec(old(self)@, k@),
            r == lookup(old(self)@, k@),
    {
        proof {
            use_type_invariant(&*self);
            lemma_remove_spec(self@, k@);
            lemma_has_key_at_lower_bound(self@, k@);
            lemma_lower_bound(self@, k@);
        }
        let ghost before = self@;
        let p = self.position(k);
        let mut entries: Vec<(String, T)> = Vec::new();
        std::mem::swap(&mut entries, &mut self.entries);
        assert(entries@.map_values(|e: (String, T)| (e.0@, e.1)) == before);
        assert(entries@.len() == before.len());
        let found = p < entries.len() && str_eq(entries[p].0.as_str(), k);
        let old_value;
        if found {
            proof {
                lemma_lookup_at(before, p as int);
            }
            let (_, prev) = entries.remove(p);
            old_value = Some(prev);
        } else {
            proof {
                lemma_lookup_absent(before, k@);
            }
            old_value = None;
        }
        let ghost after = entries@.map_values(|e: (String, T)| (e.0@, e.1));
        assert(after =~= remove_spec(before, k@));
        self.entries = entries;
        old_value
    }

    /// Replace the value at position `i`, keeping its key. Returns the value
    /// it held.
    pub fn replace_at(&mut self, i: usize, v: T) -> (r: T)
        requires
            i < old(self)@.len(),
        ensures
            final(self)@ == old(self)@.update(i as int, (old(self)@[i as int].0, v)),
            r == old(self)@[i as int].1,
    {
        proof {
            use_type_invariant(&*self);
        }
        let ghost before = self@;
        let mut entries: Vec<(String, T)> = Vec::new();
        std::mem::swap(&mut entries, &mut self.entries);
        assert(entries@.map_values(|e: (String, T)| (e.0@, e.1)) == before);
        assert(entries@.len() == before.len());
        let (key, prev) = entries.remove(i);
        entries.insert(i, (key, v));
        let ghost after = entries@.map_values(|e: (String, T)| (e.0@, e.1));
        assert(after =~= before.update(i as int, (before[i as int].0, v)));
        assert(sorted_keys(after)) by {
            assert forall|a: int, b: int| 0 <= a < b < after.len() implies lex_lt(
                #[trigger] after[a].0,
                #[trigger] after[b].0,
            ) by {
                assert(after[a].0 == before[a].0);
                assert(after[b].0 == before[b].0);
            }
        }
        self.entries = entries;
        prev
    }

    /// A copy of this map.
    pub fn duplicate(&self) -> (r: Self)
        where T: Copy
        ensures
            r@ == self@,
    {
        proof {
            use_type_invariant(self);
        }
        let mut entries: Vec<(String, T)> = Vec::new();
        let mut i: usize = 0;
        while i < self.entries.len()
            invariant
                i <= self.entries@.len(),
                entries@.map_values(|e: (String, T)| (e.0@, e.1)) == self@.subrange(0, i as int),
                self@.len() == self.entries@.len(),
                self@ == self.entries@.map_values(|e: (String, T)| (e.0@, e.1)),
            decreases self.entries@.len() - i,
        {
            let key = self.entries[i].0.clone();
            let value = self.entries[i].1;
            let ghost prev = entries@;
            entries.push((key, value));
            assert(entries@.map_values(|e: (String, T)| (e.0@, e.1)) =~= prev.map_values(
                |e: (String, T)| (e.0@, e.1),
            ).push(self@[i as int]));
            i = i + 1;
            assert(self@.subrange(0, i as int) =~= self@.subrange(0, i - 1).push(self@[i - 1]));
        }
        assert(self@.subrange(0, self@.len() as int) =~= self@);
        StrMap { entries }
    }

    /// Add an entry whose key sorts after every key already here.
    pub fn push_last(&mut self, k: String, v: T)
        requires
            old(self)@.len() == 0 || lex_lt(old(self)@.last().0, k@),
        ensures
            final(self)@ == old(self)@.push((k@, v)),
    {
        proof {
            use_type_invariant(&*self);
        }
        let ghost before = self@;
        let mut entries: Vec<(String, T)> = Vec::new();
        std::mem::swap(&mut entries, &mut self.entries);
        assert(entries@.map_values(|e: (String, T)| (e.0@, e.1)) == before);
        entries.push((k, v));
        let ghost after = entries@.map_values(|e: (String, T)| (e.0@, e.1));
        assert(after =~= before.push((k@, v)));
        assert(sorted_keys(after)) by {
            assert forall|a: int, b: int| 0 <= a < b < after.len() implies lex_lt(
                #[trigger] after[a].0,
                #[trigger] after[b].0,
            ) by {
                if b == after.len() - 1 && a < before.len() - 1 {
                    assert(lex_lt(before[a].0, before.last().0));
                    lemma_lex_transitive(before[a].0, before.last().0, k@);
                }
            }
        }
        self.entries = entries;
    }
}

} // verus!
