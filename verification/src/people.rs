//! The people the house knows, and the ids they are known by.
//!
//! Ids appear in every event's `actors`, and a log a human can read is worth
//! more than one with random identifiers in it, so an id is a readable slug
//! of the display name, suffixed when that slug is taken.
//!
//! Tokens are deliberately not part of a [`Person`]: this type is handed to
//! HTTP handlers and serialised to clients, so the token is not merely
//! omitted from responses — it is not reachable from here at all.

use vstd::prelude::*;

use crate::text::{concat, debug_quoted, debug_text, decimal, owned, push_char, push_decimal};

verus! {

/// Someone the house knows.
#[derive(Debug, Clone, PartialEq, Eq)]
pub struct Person {
    /// Stable id, a slug of the display name. Appears in event `actors`.
    pub id: String,
    /// What they asked to be called.
    pub name: String,
    /// Optional avatar reference. Unused so far.
    pub avatar: Option<String>,
    /// When they first joined, in Unix milliseconds.
    pub joined_ms: i64,
    /// The Bluetooth identity address of a phone or tag bonded to the box,
    /// if this person has enrolled one. Nobody is enrolled by existing.
    pub bt_identity: Option<String>,
}

/// How many `name-2`, `name-3`, ... variants to try before giving up.
pub const MAX_ID_ATTEMPTS: u32 = 200;

/// Longest slug before the suffix. A display name is free-form; a primary
/// key that inherits its length is not something to find out about later.
pub const MAX_SLUG_LEN: usize = 32;

/// Whether `c` is an ASCII letter or digit.
pub open spec fn ascii_alnum(c: char) -> bool {
    ('0' <= c <= '9') || ('a' <= c <= 'z') || ('A' <= c <= 'Z')
}

/// `c` in lower case, if it is an ASCII capital.
pub open spec fn ascii_lower(c: char) -> char {
    if 'A' <= c <= 'Z' {
        ((c as int) + 32) as char
    } else {
        c
    }
}

/// What a slug is after reading `cs` left to right: the text so far,
/// whether a separator is owed before the next letter, and whether it has
/// stopped reading, either because it reached its length or because a
/// separator and the letter after it no longer fit.
pub open spec fn slug_scan(cs: Seq<char>) -> (Seq<char>, bool, bool)
    decreases cs.len(),
{
    if cs.len() == 0 {
        (Seq::empty(), false, false)
    } else {
        let (out, pending, stopped) = slug_scan(cs.drop_last());
        let c = cs.last();
        if stopped {
            (out, pending, true)
        } else if !ascii_alnum(c) {
            (out, true, false)
        } else if pending && out.len() > 0 {
            if out.len() + 2 <= MAX_SLUG_LEN {
                let next = out.push('-').push(ascii_lower(c));
                (next, false, next.len() >= MAX_SLUG_LEN)
            } else {
                (out, pending, true)
            }
        } else {
            let next = out.push(ascii_lower(c));
            (next, false, next.len() >= MAX_SLUG_LEN)
        }
    }
}

/// The slug of a display name: its ASCII letters and digits, lower case,
/// with one `-` where anything else separated them, never longer than
/// [`MAX_SLUG_LEN`] and never ending in `-`; `guest` when nothing is left.
pub open spec fn slug(name: Seq<char>) -> Seq<char> {
    if slug_scan(name).0.len() == 0 {
        "guest"@
    } else {
        slug_scan(name).0
    }
}

/// Whether `c` may appear in an id: a lower-case ASCII letter, a digit, or
/// a hyphen.
pub open spec fn id_char(c: char) -> bool {
    ('0' <= c <= '9') || ('a' <= c <= 'z') || c == '-'
}

/// Whether `s` reads as an id: only id characters, never starting or ending
/// with a hyphen, never two in a row.
pub open spec fn readable_id(s: Seq<char>) -> bool {
    &&& s.len() > 0
    &&& forall|i: int| 0 <= i < s.len() ==> id_char(#[trigger] s[i])
    &&& s[0] != '-'
    &&& s.last() != '-'
    &&& forall|i: int| 0 <= i < s.len() - 1 ==> !(#[trigger] s[i] == '-' && s[i + 1] == '-')
}

proof fn lemma_slug_scan(cs: Seq<char>)
    ensures
        ({
            let (out, pending, stopped) = slug_scan(cs);
            &&& forall|i: int| 0 <= i < out.len() ==> id_char(#[trigger] out[i])
            &&& out.len() > 0 ==> out[0] != '-' && out.last() != '-'
            &&& forall|i: int| 0 <= i < out.len() - 1 ==> !(#[trigger] out[i] == '-' && out[i + 1]
                == '-')
            &&& out.len() <= MAX_SLUG_LEN
            &&& !stopped ==> out.len() < MAX_SLUG_LEN
        }),
    decreases cs.len(),
{
    if cs.len() > 0 {
        lemma_slug_scan(cs.drop_last());
        let (out, pending, stopped) = slug_scan(cs.drop_last());
        let c = cs.last();
        if !stopped && ascii_alnum(c) && (!(pending && out.len() > 0) || out.len() + 2
            <= MAX_SLUG_LEN) {
            let sep = if pending && out.len() > 0 {
                out.push('-')
            } else {
                out
            };
            let next = sep.push(ascii_lower(c));
            assert(id_char(ascii_lower(c)));
            assert(ascii_lower(c) != '-');
            assert forall|i: int| 0 <= i < next.len() implies id_char(#[trigger] next[i]) by {
                if i < out.len() {
                    assert(next[i] == out[i]);
                }
            }
            assert forall|i: int| 0 <= i < next.len() - 1 implies !(#[trigger] next[i] == '-'
                && next[i + 1] == '-') by {
                if i + 1 < out.len() {
                    assert(next[i] == out[i] && next[i + 1] == out[i + 1]);
                } else if i + 1 == out.len() {
                    assert(next[i] == out[i]);
                }
            }
            if out.len() > 0 {
                assert(next[0] == out[0]);
            }
            assert(slug_scan(cs).0 == next);
        }
    }
}

/// Whether `w` is a word a slug keeps as it is: lower-case ASCII letters
/// and digits.
pub open spec fn slug_word(w: Seq<char>) -> bool {
    forall|i: int| 0 <= i < w.len() ==> ('a' <= #[trigger] w[i] <= 'z' || '0' <= w[i] <= '9')
}

/// Reading a word alone, short of the cap, keeps it whole and owes no
/// separator.
proof fn lemma_scan_word(w: Seq<char>)
    requires
        slug_word(w),
        w.len() < MAX_SLUG_LEN,
    ensures
        slug_scan(w) == (w, false, false),
    decreases w.len(),
{
    if w.len() > 0 {
        let d = w.drop_last();
        assert(slug_word(d)) by {
            assert forall|i: int| 0 <= i < d.len() implies ('a' <= #[trigger] d[i] <= 'z' || '0'
                <= d[i] <= '9') by {
                assert(d[i] == w[i]);
            }
        }
        lemma_scan_word(d);
        assert(ascii_lower(w.last()) == w.last());
        assert(d.push(w.last()) =~= w);
    }
}

/// Reading a word after text that owes a separator puts one hyphen before
/// it, when both fit.
proof fn lemma_scan_word_after(p: Seq<char>, out: Seq<char>, w: Seq<char>)
    requires
        slug_scan(p) == (out, true, false),
        out.len() > 0,
        slug_word(w),
        w.len() > 0,
        out.len() + 1 + w.len() <= MAX_SLUG_LEN,
    ensures
        slug_scan(p + w).0 == out + "-"@ + w,
        !slug_scan(p + w).1,
        out.len() + 1 + w.len() < MAX_SLUG_LEN ==> !slug_scan(p + w).2,
    decreases w.len(),
{
    reveal_strlit("-");
    let c = w.last();
    assert(ascii_lower(c) == c);
    assert((p + w).drop_last() =~= p + w.drop_last());
    assert((p + w).last() == c);
    if w.len() == 1 {
        assert(p + w.drop_last() =~= p);
        assert(out.push('-').push(c) =~= out + "-"@ + w);
    } else {
        let d = w.drop_last();
        assert(slug_word(d)) by {
            assert forall|i: int| 0 <= i < d.len() implies ('a' <= #[trigger] d[i] <= 'z' || '0'
                <= d[i] <= '9') by {
                assert(d[i] == w[i]);
            }
        }
        lemma_scan_word_after(p, out, d);
        assert((out + "-"@ + d).push(c) =~= out + "-"@ + w);
    }
}

/// Anything that is not a letter or digit between two words becomes
/// exactly one hyphen: the slug of `a`, then `c`, then `b` is `a-b`, when
/// it fits. A hyphen already in a name is kept as the one separator, so
/// `Mary-Jane` slugs to `mary-jane`.
pub proof fn lemma_a_separator_becomes_one_hyphen(a: Seq<char>, c: char, b: Seq<char>)
    requires
        slug_word(a),
        slug_word(b),
        a.len() > 0,
        b.len() > 0,
        !ascii_alnum(c),
        a.len() + 1 + b.len() <= MAX_SLUG_LEN,
    ensures
        slug(a.push(c) + b) == a + "-"@ + b,
{
    reveal_strlit("-");
    lemma_scan_word(a);
    assert(a.push(c).drop_last() =~= a);
    assert(slug_scan(a.push(c)) == (a, true, false));
    lemma_scan_word_after(a.push(c), a, b);
}

/// `c` with an ASCII capital turned to its small letter, 32 code points
/// on.
pub open spec fn small(c: char) -> char {
    if 'A' <= c <= 'Z' {
        ((c as u32) + 32) as char
    } else {
        c
    }
}

/// Whether every character of `w` is an ASCII letter or digit.
pub open spec fn alnum_word(w: Seq<char>) -> bool {
    forall|i: int|
        0 <= i < w.len() ==> ('a' <= #[trigger] w[i] <= 'z' || 'A' <= w[i] <= 'Z' || '0' <= w[i]
            <= '9')
}

/// Reading a run of letters and digits keeps each, in small letters, until
/// the cap.
proof fn lemma_scan_alnum(w: Seq<char>)
    requires
        alnum_word(w),
        w.len() <= MAX_SLUG_LEN,
    ensures
        slug_scan(w).0 == w.map_values(|c: char| small(c)),
        !slug_scan(w).1,
        slug_scan(w).2 == (w.len() == MAX_SLUG_LEN),
    decreases w.len(),
{
    if w.len() > 0 {
        let d = w.drop_last();
        assert(alnum_word(d)) by {
            assert forall|i: int| 0 <= i < d.len() implies ('a' <= #[trigger] d[i] <= 'z' || 'A'
                <= d[i] <= 'Z' || '0' <= d[i] <= '9') by {
                assert(d[i] == w[i]);
            }
        }
        lemma_scan_alnum(d);
        assert(ascii_lower(w.last()) == small(w.last()));
        assert(d.map_values(|c: char| small(c)).push(small(w.last())) =~= w.map_values(
            |c: char| small(c),
        ));
    } else {
        assert(w.map_values(|c: char| small(c)) =~= Seq::<char>::empty());
    }
}

/// A name of ASCII letters and digits alone slugs to those characters in
/// small letters, cut at [`MAX_SLUG_LEN`]: capitals are lowered, digits and
/// small letters kept, nothing added.
pub proof fn lemma_a_plain_name_is_lowered_and_capped(w: Seq<char>)
    requires
        alnum_word(w),
        w.len() > 0,
    ensures
        slug(w).len() == if w.len() < MAX_SLUG_LEN {
            w.len()
        } else {
            MAX_SLUG_LEN as nat
        },
        forall|i: int| 0 <= i < slug(w).len() ==> #[trigger] slug(w)[i] == small(w[i]),
{
    let n: int = if w.len() < MAX_SLUG_LEN {
        w.len() as int
    } else {
        MAX_SLUG_LEN as int
    };
    let pre = w.subrange(0, n);
    assert(alnum_word(pre)) by {
        assert forall|i: int| 0 <= i < pre.len() implies ('a' <= #[trigger] pre[i] <= 'z' || 'A'
            <= pre[i] <= 'Z' || '0' <= pre[i] <= '9') by {
            assert(pre[i] == w[i]);
        }
    }
    lemma_scan_alnum(pre);
    if n == w.len() {
        assert(pre =~= w);
    } else {
        lemma_scan_stays_stopped(w, n);
    }
}

/// Turn a display name into a stable, readable id.
///
/// A name of only emoji or non-Latin script leaves nothing behind, and an
/// empty primary key is not a usable id, so that name becomes `guest`.
pub fn slugify(name: &str) -> (r: String)
    ensures
        r@ == slug(name@),
        readable_id(r@),
        r@.len() <= MAX_SLUG_LEN,
{
    let cs = crate::text::chars_of(name);
    let mut out: Vec<char> = Vec::new();
    let mut pending = false;
    let mut i: usize = 0;
    assert(name@.subrange(0, 0) =~= Seq::<char>::empty());
    let mut stopped = false;
    while i < cs.len() && !stopped
        invariant
            cs@ == name@,
            i <= cs@.len(),
            slug_scan(name@.subrange(0, i as int)) == (out@, pending, stopped),
            out@.len() <= MAX_SLUG_LEN,
        decreases cs@.len() - i,
    {
        let c = cs[i];
        proof {
            let pre = name@.subrange(0, i + 1);
            assert(pre.drop_last() =~= name@.subrange(0, i as int));
            assert(pre.last() == c);
            lemma_slug_scan(name@.subrange(0, i as int));
        }
        let alnum = ('0' <= c && c <= '9') || ('a' <= c && c <= 'z') || ('A' <= c && c <= 'Z');
        if !alnum {
            pending = true;
        } else if pending && out.len() > 0 && out.len() + 2 > MAX_SLUG_LEN {
            stopped = true;
        } else {
            if pending && out.len() > 0 {
                out.push('-');
            }
            pending = false;
            let lower = if 'A' <= c && c <= 'Z' {
                lower_ascii(c)
            } else {
                c
            };
            out.push(lower);
            stopped = out.len() >= MAX_SLUG_LEN;
        }
        i = i + 1;
    }
    proof {
        if stopped {
            lemma_scan_stays_stopped(name@, i as int);
        }
        assert(name@.subrange(0, name@.len() as int) =~= name@);
        lemma_slug_scan(name@);
        reveal_strlit("guest");
    }
    if out.len() == 0 {
        owned("guest")
    } else {
        crate::text::string_from_chars(out.as_slice())
    }
}

proof fn lemma_scan_stays_stopped(cs: Seq<char>, i: int)
    requires
        0 <= i <= cs.len(),
        slug_scan(cs.subrange(0, i)).2,
    ensures
        slug_scan(cs) == slug_scan(cs.subrange(0, i)),
    decreases cs.len() - i,
{
    if i < cs.len() {
        let pre = cs.subrange(0, i + 1);
        assert(pre.drop_last() =~= cs.subrange(0, i));
        lemma_scan_stays_stopped(cs, i + 1);
    } else {
        assert(cs.subrange(0, i) =~= cs);
    }
}

/// The lower-case form of an ASCII capital.
fn lower_ascii(c: char) -> (r: char)
    requires
        'A' <= c <= 'Z',
    ensures
        r == ascii_lower(c),
{
    let code = (c as u32 + 32) as u8;
    code as char
}

/// The id tried on attempt `attempt`: the slug itself first, then
/// `slug-2`, `slug-3`, ...
pub open spec fn id_candidate(base: Seq<char>, attempt: nat) -> Seq<char> {
    if attempt == 1 {
        base
    } else {
        base + "-"@ + decimal(attempt)
    }
}

/// The id to try on attempt `attempt`, counting from one.
pub fn person_id_candidate(base: &str, attempt: u32) -> (r: String)
    ensures
        r@ == id_candidate(base@, attempt as nat),
{
    if attempt == 1 {
        owned(base)
    } else {
        let mut out = concat(base, "-");
        push_decimal(&mut out, attempt as u64);
        out
    }
}

/// Why no id could be allocated for `name`, whose slug is `base`.
pub open spec fn exhausted_message(name: Seq<char>, base: Seq<char>) -> Seq<char> {
    "could not allocate an id for "@ + debug_text(name) + ": "@ + base + " and "@ + decimal(
        MAX_ID_ATTEMPTS as nat,
    ) + " suffixed variants are all taken"@
}

/// Why no id could be allocated for `name`.
pub fn ids_exhausted(name: &str, base: &str) -> (r: String)
    ensures
        r@ == exhausted_message(name@, base@),
{
    let shown = debug_quoted(name);
    let mut out = concat("could not allocate an id for ", shown.as_str());
    out = concat(out.as_str(), ": ");
    out = concat(out.as_str(), base);
    out = concat(out.as_str(), " and ");
    push_decimal(&mut out, MAX_ID_ATTEMPTS as u64);
    concat(out.as_str(), " suffixed variants are all taken")
}

/// What storing a person under a candidate id came to. Any other failure
/// is not the allocator's to judge: it surfaces as itself.
#[derive(Debug, Clone, Copy, PartialEq, Eq, Structural)]
pub enum InsertOutcome {
    /// The person is stored.
    Stored,
    /// Somebody already has that id.
    IdTaken,
}

/// What to do next while allocating an id.
#[derive(Debug, Clone, PartialEq, Eq)]
pub enum IdStep {
    /// Store the person under this id, as this attempt, counting from one.
    Try(u32, String),
    /// The person is stored under this id.
    Done(String),
    /// Every variant is taken; this says so.
    GiveUp(String),
}

/// The first step of allocating an id from slug `base`: try the slug
/// itself.
pub fn first_id_step(base: &str) -> (r: IdStep)
    ensures
        r matches IdStep::Try(attempt, id) && attempt == 1 && id@ == id_candidate(base@, 1),
{
    IdStep::Try(1, person_id_candidate(base, 1))
}

/// The step after attempt `attempt` at an id for `name`, whose slug is
/// `base`, came to `outcome`: done once stored; after a collision the next
/// suffix, until [`MAX_ID_ATTEMPTS`] have all been taken.
pub fn next_id_step(name: &str, base: &str, attempt: u32, outcome: InsertOutcome) -> (r: IdStep)
    requires
        1 <= attempt <= MAX_ID_ATTEMPTS,
    ensures
        outcome == InsertOutcome::Stored ==> (r matches IdStep::Done(id) && id@ == id_candidate(
            base@,
            attempt as nat,
        )),
        outcome == InsertOutcome::IdTaken && attempt < MAX_ID_ATTEMPTS ==> (r matches IdStep::Try(
            next,
            id,
        ) && next == attempt + 1 && id@ == id_candidate(base@, next as nat)),
        outcome == InsertOutcome::IdTaken && attempt == MAX_ID_ATTEMPTS ==> (r matches IdStep::GiveUp(
            message,
        ) && message@ == exhausted_message(name@, base@)),
{
    match outcome {
        InsertOutcome::Stored => IdStep::Done(person_id_candidate(base, attempt)),
        InsertOutcome::IdTaken => if attempt < MAX_ID_ATTEMPTS {
            IdStep::Try(attempt + 1, person_id_candidate(base, attempt + 1))
        } else {
            IdStep::GiveUp(ids_exhausted(name, base))
        },
    }
}

} // verus!
