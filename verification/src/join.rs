//! One-time join codes.
//!
//! The TV shows a QR encoding `/join?c=<code>`. Scanning it exchanges the
//! code once for a per-person token, and the code is burned.
//!
//! **Codes live in memory only.** They are secrets, and the event log is
//! append-only and served unauthenticated on the LAN.
//!
//! Rotation defeats a **photograph of the TV, used later**: burning the code
//! on exchange and rotating it every minute bounds that exposure to the
//! minute it was on screen.

use vstd::prelude::*;

use crate::text::{push_char, str_eq};

verus! {

/// How long a code stays on the TV before it is replaced.
pub const ROTATE_MS: i64 = 60_000;

/// How long a just-replaced code keeps working.
///
/// Someone photographs the QR at 59.9s and their phone posts at 60.4s.
/// Without this the join fails for no reason a person could see or fix.
pub const GRACE_MS: i64 = 15_000;

/// Bytes of entropy per code. 128 bits, so guessing is not a strategy even
/// against an attacker already on the LAN.
pub const CODE_BYTES: usize = 16;

/// Bytes of entropy per phone token. Longer than a code because a code lives
/// for a minute and a token lives until the phone forgets it.
pub const TOKEN_BYTES: usize = 32;

#[verifier::external_type_specification]
#[verifier::external_body]
pub struct ExRandomError(getrandom::Error);

/// Fill `dest` with bytes from the operating system's entropy source.
///
/// Trusted: calls `getrandom::getrandom`, which fills the whole slice with
/// random bytes or returns an error; an empty slice asks the system for
/// nothing and always succeeds. The bytes are chance: nothing is stated of
/// them but that the length stays as it was.
#[verifier::external_body]
fn fill_random(dest: &mut Vec<u8>) -> (r: Result<(), getrandom::Error>)
    ensures
        final(dest)@.len() == old(dest)@.len(),
        old(dest)@.len() == 0 ==> r is Ok,
{
    getrandom::getrandom(dest.as_mut_slice())
}

/// The operating system had no entropy to give.
#[derive(Debug, Clone, Copy, PartialEq, Eq, Structural)]
pub struct NoEntropy;

/// The digits of base sixteen, lower case.
pub open spec fn hex_digits() -> Seq<char> {
    "0123456789abcdef"@
}

/// Bytes written as lower-case hex, two digits per byte, high digit first.
pub open spec fn hex_spec(bytes: Seq<u8>) -> Seq<char>
    decreases bytes.len(),
{
    if bytes.len() == 0 {
        Seq::empty()
    } else {
        hex_spec(bytes.drop_last()) + seq![
            hex_digits()[(bytes.last() / 16) as int],
            hex_digits()[(bytes.last() % 16) as int],
        ]
    }
}

/// Whether `s` is `n` bytes written as lower-case hex.
pub open spec fn is_hex_of_len(s: Seq<char>, n: nat) -> bool {
    exists|bytes: Seq<u8>| bytes.len() == n && #[trigger] hex_spec(bytes) == s
}

proof fn lemma_hex_len(bytes: Seq<u8>)
    ensures
        hex_spec(bytes).len() == 2 * bytes.len(),
    decreases bytes.len(),
{
    if bytes.len() > 0 {
        lemma_hex_len(bytes.drop_last());
    }
}

/// `bytes` written as lower-case hex.
pub fn hex(bytes: &[u8]) -> (r: String)
    ensures
        r@ == hex_spec(bytes@),
        r@.len() == 2 * bytes@.len(),
{
    let digits = "0123456789abcdef";
    proof {
        reveal_strlit("0123456789abcdef");
    }
    let mut out = String::new();
    let mut i: usize = 0;
    assert(bytes@.subrange(0, 0) =~= Seq::<u8>::empty());
    while i < bytes.len()
        invariant
            i <= bytes@.len(),
            digits@ == hex_digits(),
            digits@.len() == 16,
            out@ == hex_spec(bytes@.subrange(0, i as int)),
        decreases bytes@.len() - i,
    {
        let b = bytes[i];
        push_char(&mut out, digits.get_char((b / 16) as usize));
        push_char(&mut out, digits.get_char((b % 16) as usize));
        proof {
            let pre = bytes@.subrange(0, i + 1);
            assert(pre.drop_last() =~= bytes@.subrange(0, i as int));
            assert(pre.last() == b);
        }
        i = i + 1;
        assert(out@ =~= hex_spec(bytes@.subrange(0, i as int)));
    }
    assert(bytes@.subrange(0, bytes@.len() as int) =~= bytes@);
    proof {
        lemma_hex_len(bytes@);
    }
    out
}

/// `len` fresh bytes of OS entropy, hex encoded. Asking for none always
/// succeeds, with the empty text.
fn random_hex(len: usize) -> (r: Result<String, NoEntropy>)
    ensures
        r matches Ok(s) ==> is_hex_of_len(s@, len as nat) && s@.len() == 2 * len,
        len == 0 ==> r is Ok,
{
    let mut bytes: Vec<u8> = Vec::new();
    let mut i: usize = 0;
    while i < len
        invariant
            i <= len,
            bytes@.len() == i,
        decreases len - i,
    {
        bytes.push(0);
        i = i + 1;
    }
    match fill_random(&mut bytes) {
        Ok(()) => {
            let s = hex(bytes.as_slice());
            assert(hex_spec(bytes@) == s@);
            Ok(s)
        },
        Err(_) => Err(NoEntropy),
    }
}

/// A fresh per-person bearer token: 256 bits of OS entropy, hex encoded.
pub fn new_token() -> (r: Result<String, NoEntropy>)
    ensures
        r matches Ok(s) ==> is_hex_of_len(s@, TOKEN_BYTES as nat) && s@.len() == 64,
{
    random_hex(TOKEN_BYTES)
}

/// A code, and when it went on the TV.
#[derive(Debug)]
struct Issued {
    code: String,
    issued_ms: i64,
}

/// What a slot holds: a code's text and when it was issued, if any.
pub type Slot = Option<(Seq<char>, i64)>;

/// What the issuer holds: the code on the TV, and the one it replaced.
pub struct CodesModel {
    /// The code on the TV.
    pub current: Slot,
    /// The code the TV showed until the last rotation.
    pub previous: Slot,
}

/// Whether the code on the TV is due to be replaced at `now`: there is
/// none, or it has been up a full rotation.
pub open spec fn stale(m: CodesModel, now: int) -> bool {
    match m.current {
        Some((_, issued)) => now - issued >= ROTATE_MS,
        None => true,
    }
}

/// Whether a slot holds `code`, still inside its rotation and grace.
pub open spec fn slot_accepts(slot: Slot, code: Seq<char>, now: int) -> bool {
    slot matches Some((c, issued)) && c == code && now - issued < ROTATE_MS + GRACE_MS
}

/// The issuer after redeeming `code` at `now`: the slot that accepted it,
/// current first, is burned; nothing else changes.
pub open spec fn redeem_spec(m: CodesModel, code: Seq<char>, now: int) -> CodesModel {
    if slot_accepts(m.current, code, now) {
        CodesModel { current: None, previous: m.previous }
    } else if slot_accepts(m.previous, code, now) {
        CodesModel { current: m.current, previous: None }
    } else {
        m
    }
}

/// Whether redeeming `code` at `now` succeeds.
pub open spec fn redeems(m: CodesModel, code: Seq<char>, now: int) -> bool {
    slot_accepts(m.current, code, now) || slot_accepts(m.previous, code, now)
}

/// The live join code, and the one just retired.
#[derive(Debug)]
pub struct JoinCodes {
    current: Option<Issued>,
    /// The code the TV showed until the last rotation. See [`GRACE_MS`].
    previous: Option<Issued>,
}

/// The model of a slot.
spec fn slot_view(i: Option<Issued>) -> Slot {
    match i {
        Some(i) => Some((i.code@, i.issued_ms)),
        None => None,
    }
}

impl View for JoinCodes {
    type V = CodesModel;

    closed spec fn view(&self) -> CodesModel {
        CodesModel { current: slot_view(self.current), previous: slot_view(self.previous) }
    }
}

/// Whether `issued` holds `code`, still inside its rotation and grace.
fn accepts(slot: &Option<Issued>, code: &str, now_ms: i64) -> (r: bool)
    ensures
        r == slot_accepts(slot_view(*slot), code@, now_ms as int),
{
    match slot {
        Some(issued) => str_eq(issued.code.as_str(), code) && (now_ms as i128) - (
        issued.issued_ms as i128) < (ROTATE_MS + GRACE_MS) as i128,
        None => false,
    }
}

impl JoinCodes {
    /// A fresh issuer with no code yet.
    pub fn new() -> (r: Self)
        ensures
            r@ == (CodesModel { current: None, previous: None }),
    {
        JoinCodes { current: None, previous: None }
    }

    /// Whether the code on the TV is due to be replaced at `now_ms`.
    pub fn needs_rotation(&self, now_ms: i64) -> (r: bool)
        ensures
            r == stale(self@, now_ms as int),
    {
        match &self.current {
            Some(issued) => (now_ms as i128) - (issued.issued_ms as i128) >= ROTATE_MS as i128,
            None => true,
        }
    }

    /// Put `fresh` on the TV as of `now_ms`, retiring the code it replaces.
    pub fn rotate(&mut self, fresh: String, now_ms: i64)
        ensures
            final(self)@ == (CodesModel {
                current: Some((fresh@, now_ms)),
                previous: old(self)@.current,
            }),
    {
        let retired = self.current.take();
        self.previous = retired;
        self.current = Some(Issued { code: fresh, issued_ms: now_ms });
    }

    /// The code on the TV, if there is one.
    pub fn shown(&self) -> (r: Option<String>)
        ensures
            match r {
                Some(c) => self@.current matches Some((code, _)) && c@ == code,
                None => self@.current is None,
            },
    {
        match &self.current {
            Some(issued) => Some(issued.code.clone()),
            None => None,
        }
    }

    /// The code to put on the TV right now, rotating if the last one is
    /// stale.
    ///
    /// A rotation draws a fresh code from OS entropy; when there is none the
    /// issuer is left as it was.
    pub fn current(&mut self, now_ms: i64) -> (r: Result<String, NoEntropy>)
        ensures
            !stale(old(self)@, now_ms as int) ==> final(self)@ == old(self)@ && (r matches Ok(c)
                && old(self)@.current matches Some((code, _)) && c@ == code),
            stale(old(self)@, now_ms as int) ==> match r {
                Ok(c) => final(self)@ == (CodesModel {
                    current: Some((c@, now_ms)),
                    previous: old(self)@.current,
                }) && is_hex_of_len(c@, CODE_BYTES as nat) && c@.len() == 32,
                Err(_) => final(self)@ == old(self)@,
            },
    {
        if self.needs_rotation(now_ms) {
            match random_hex(CODE_BYTES) {
                Ok(fresh) => self.rotate(fresh, now_ms),
                Err(e) => return Err(e),
            }
        }
        match self.shown() {
            Some(code) => Ok(code),
            None => Err(NoEntropy),
        }
    }

    /// Spend a code. Returns false if it is unknown, expired, or already
    /// used.
    ///
    /// Deliberately does not rotate. Expiry is decided by the code's own
    /// age, so a code cannot outlive its window just because nobody was
    /// looking at the TV — which is exactly the photographed-QR case.
    pub fn redeem(&mut self, code: &str, now_ms: i64) -> (r: bool)
        ensures
            r == redeems(old(self)@, code@, now_ms as int),
            final(self)@ == redeem_spec(old(self)@, code@, now_ms as int),
    {
        // Burn only the slot that matched: the current and retired codes are
        // independent, and redeeming one must not invalidate the other.
        if accepts(&self.current, code, now_ms) {
            self.current = None;
            return true;
        }
        if accepts(&self.previous, code, now_ms) {
            self.previous = None;
            return true;
        }
        false
    }
}

/// A code can only be redeemed once: after it has been spent, spending it
/// again fails, at any time — provided the two slots do not hold the same
/// code, which two independent draws of 128 random bits never do in
/// practice but nothing can rule out.
pub proof fn lemma_redeemed_once(m: CodesModel, code: Seq<char>, now: int, later: int)
    requires
        !(m.current matches Some((a, _)) && m.previous matches Some((b, _)) && a == b),
        redeems(m, code, now),
    ensures
        !redeems(redeem_spec(m, code, now), code, later),
{
}

/// Redeeming one code leaves the other slot exactly as it was.
pub proof fn lemma_redeeming_one_slot_spares_the_other(m: CodesModel, code: Seq<char>, now: int)
    ensures
        redeem_spec(m, code, now).current == m.current || redeem_spec(m, code, now).previous
            == m.previous,
        slot_accepts(m.current, code, now) ==> redeem_spec(m, code, now).previous == m.previous,
        !slot_accepts(m.current, code, now) ==> redeem_spec(m, code, now).current == m.current,
{
}

/// The code just put on the TV can be redeemed until its rotation and grace
/// have passed, and not after.
pub proof fn lemma_fresh_code_window(m: CodesModel, fresh: Seq<char>, issued: i64, now: int)
    requires
        now >= issued,
    ensures
        redeems(CodesModel { current: Some((fresh, issued)), previous: m.current }, fresh, now)
            <== now - issued < ROTATE_MS + GRACE_MS,
        slot_accepts(Some((fresh, issued)), fresh, now) == (now - issued < ROTATE_MS + GRACE_MS),
{
}

} // verus!
