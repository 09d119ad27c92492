//! Resolving a phone's bearer token to a person.
//!
//! Applied only to endpoints that must know *who* is acting; the read
//! surface and the open ingest port take no token.

use vstd::prelude::*;

use crate::people::{ascii_lower, Person};
use crate::text::{trim, trimmed};

verus! {

/// A request that carried a valid token, and who it belongs to.
///
/// Extracting this is the authentication: a handler that takes it can only
/// be reached by a known phone, and it cannot forget to check.
#[derive(Debug, Clone)]
pub struct Authenticated(pub Person);

/// Where the first space of `h` is, if it has one.
pub open spec fn first_space(h: Seq<char>) -> Option<int> {
    if exists|i: int| 0 <= i < h.len() && h[i] == ' ' {
        Some(choose|i: int| 0 <= i < h.len() && h[i] == ' ' && forall|j: int| 0 <= j < i ==> h[j] != ' ')
    } else {
        None
    }
}

/// Whether `scheme` is `bearer` in any ASCII case: schemes are
/// case-insensitive, and clients do vary.
pub open spec fn is_bearer_scheme(scheme: Seq<char>) -> bool {
    scheme.len() == 6 && forall|k: int| 0 <= k < 6 ==> ascii_lower(#[trigger] scheme[k]) == "bearer"@[k]
}

/// The token of an `Authorization` header: the text after its first space,
/// trimmed, when the text before it names the bearer scheme and the token
/// is not empty.
pub open spec fn bearer_token(h: Seq<char>) -> Option<Seq<char>> {
    match first_space(h) {
        Some(i) => if is_bearer_scheme(h.subrange(0, i)) && trimmed(
            h.subrange(i + 1, h.len() as int),
        ).len() > 0 {
            Some(trimmed(h.subrange(i + 1, h.len() as int)))
        } else {
            None
        },
        None => None,
    }
}

/// The token out of an `Authorization` header, if it is a bearer one.
pub fn bearer(header: &str) -> (r: Option<&str>)
    ensures
        match r {
            Some(t) => bearer_token(header@) == Some(t@),
            None => bearer_token(header@) is None,
        },
{
    let n = header.unicode_len();
    let mut i: usize = 0;
    while i < n && header.get_char(i) != ' '
        invariant
            n == header@.len(),
            i <= n,
            forall|j: int| 0 <= j < i ==> header@[j] != ' ',
        decreases n - i,
    {
        i = i + 1;
    }
    if i == n {
        return None;
    }
    proof {
        let h = header@;
        assert(h[i as int] == ' ');
        let c = choose|k: int| 0 <= k < h.len() && h[k] == ' ' && forall|j: int| 0 <= j < k ==> h[j] != ' ';
        if c < i {
            assert(h[c] != ' ');
        }
        if c > i {
            assert(h[i as int] != ' ');
        }
        reveal_strlit("bearer");
    }
    let scheme = header.substring_char(0, i);
    let wanted = "bearer";
    let mut same = i == 6;
    let mut k: usize = 0;
    while same && k < 6
        invariant
            i < header@.len(),
            scheme@ == header@.subrange(0, i as int),
            scheme@.len() == i,
            wanted@ == "bearer"@,
            wanted@.len() == 6,
            same ==> i == 6,
            k <= 6,
            same == (i == 6 && forall|j: int| 0 <= j < k ==> ascii_lower(#[trigger] scheme@[j]) == wanted@[j]),
        decreases 6 - k,
    {
        let c = scheme.get_char(k);
        let lower = if 'A' <= c && c <= 'Z' {
            ((c as u32 + 32) as u8) as char
        } else {
            c
        };
        if lower != wanted.get_char(k) {
            same = false;
        }
        k = k + 1;
    }
    if !same {
        return None;
    }
    let rest = header.substring_char(i + 1, n);
    let token = trim(rest);
    if token.unicode_len() == 0 {
        return None;
    }
    Some(token)
}

} // verus!
