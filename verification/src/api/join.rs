//! Turning a phone into a person: the exchange of a code for a token.

use vstd::prelude::*;

use crate::event::{kind, NewEvent};
use crate::join::{redeem_spec, redeems, JoinCodes};
use crate::json::Value;
use crate::people::Person;
use crate::strset::views;
use crate::text::{concat, owned, trim, trimmed};

verus! {

/// Longest display name accepted, in characters. Long enough for a real
/// name, short enough that the phone list and the TV's now-playing card stay
/// readable.
pub const MAX_NAME_LEN: usize = 40;

/// What a phone posts to trade its scanned code for a token.
#[derive(Debug)]
pub struct JoinRequest {
    /// The one-time code from the QR.
    pub code: String,
    /// What they want to be called.
    pub name: String,
}

/// What a phone gets back. The only time a token is ever sent anywhere.
#[derive(Debug)]
pub struct JoinResponse {
    /// Their new person id.
    pub id: String,
    /// Their display name.
    pub name: String,
    /// The bearer token to keep and send on every later request.
    pub token: String,
}

/// The name a join asks for, trimmed, if it is acceptable: not empty and no
/// longer than [`MAX_NAME_LEN`] characters.
pub open spec fn accepted_name(raw: Seq<char>) -> Option<Seq<char>> {
    if trimmed(raw).len() == 0 || trimmed(raw).len() > MAX_NAME_LEN {
        None
    } else {
        Some(trimmed(raw))
    }
}

/// The display name a join asks for, if it is acceptable.
pub fn display_name(raw: &str) -> (r: Option<&str>)
    ensures
        match r {
            Some(n) => accepted_name(raw@) == Some(n@),
            None => accepted_name(raw@) is None,
        },
{
    let name = trim(raw);
    let count = name.unicode_len();
    if count == 0 || count > MAX_NAME_LEN {
        None
    } else {
        Some(name)
    }
}

/// Why a join was turned away.
#[derive(Debug, Clone, Copy, PartialEq, Eq, Structural)]
pub enum JoinRefusal {
    /// The name is empty or too long. No code was spent on it.
    BadName,
    /// The code is unknown, expired, or already spent.
    BadCode,
}

/// The first half of a join: check the name, then spend the code, and
/// hand back the name to register.
///
/// The name is checked first so that a phone told to fix its name can retry
/// with the code it scanned: a refused name spends nothing.
pub fn accept_join(codes: &mut JoinCodes, raw_name: &str, code: &str, now_ms: i64) -> (r: Result<
    String,
    JoinRefusal,
>)
    ensures
        accepted_name(raw_name@) is None ==> r == Err::<String, JoinRefusal>(JoinRefusal::BadName)
            && final(codes)@ == old(codes)@,
        accepted_name(raw_name@) matches Some(n) ==> {
            &&& final(codes)@ == redeem_spec(old(codes)@, code@, now_ms as int)
            &&& redeems(old(codes)@, code@, now_ms as int) ==> (r matches Ok(name) && name@ == n)
            &&& !redeems(old(codes)@, code@, now_ms as int) ==> r == Err::<String, JoinRefusal>(
                JoinRefusal::BadCode,
            )
        },
{
    let name = match display_name(raw_name) {
        Some(name) => name,
        None => return Err(JoinRefusal::BadName),
    };
    if codes.redeem(code, now_ms) {
        Ok(owned(name))
    } else {
        Err(JoinRefusal::BadCode)
    }
}

/// The row recording that `person` joined: `person.joined` about them, with
/// their name in the payload.
pub fn joined_event(person: &Person) -> (r: NewEvent)
    ensures
        r.kind@ == kind::PERSON_JOINED@,
        views(r.actors@) == seq![person.id@],
        r.subject is None,
        r.payload matches Value::Object(m) && m@.len() == 1 && m@[0].0@ == "name"@ && (m@[0].1 matches Value::Str(n)
            && n@ == person.name@),
{
    let payload = Value::Object(vec![(owned("name"), Value::Str(person.name.clone()))]);
    let r = NewEvent::new(kind::PERSON_JOINED).actor(person.id.as_str()).payload(payload);
    assert(views(r.actors@) =~= seq![person.id@]);
    r
}

/// Smallest side of the join QR, in pixels: big enough to scan from the
/// couch.
pub const QR_MIN_PX: u32 = 240;

/// Largest side a QR is drawn at, in pixels.
pub const QR_MAX_PX: u32 = 100_000;

/// What the `qrcode` crate draws for `text` as an SVG document with sides of
/// at least `min_px` pixels and the standard quiet zone; nothing when `text`
/// does not fit a QR code.
pub uninterp spec fn qr_svg_of(text: Seq<char>, min_px: u32) -> Option<Seq<char>>;

/// `text` as a QR code, drawn as SVG.
///
/// Trusted: calls `qrcode::QrCode::new` on the text's bytes, then renders
/// with the crate's SVG renderer at `min_px` square (its quiet zone on by
/// default). Encoding and drawing depend on the text and the size alone, so
/// the result is named, not stated; the error's text is not stated either.
/// The renderer works out the module size and the picture's side in `u32`
/// (`min_px` plus the modules across, then that side times the module
/// size), so sizes are kept to [`QR_MAX_PX`], far below where that wraps.
#[verifier::external_body]
fn render_qr_svg(text: &str, min_px: u32) -> (r: Result<String, String>)
    requires
        min_px <= QR_MAX_PX,
    ensures
        match r {
            Ok(svg) => qr_svg_of(text@, min_px) == Some(svg@),
            Err(_) => qr_svg_of(text@, min_px) is None,
        },
{
    match qrcode::QrCode::new(text.as_bytes()) {
        Ok(qr) => Ok(qr.render::<qrcode::render::svg::Color<'_>>().min_dimensions(min_px, min_px).build()),
        Err(error) => Err(error.to_string()),
    }
}

/// The address a phone opens to join with `code`.
pub open spec fn join_link(join_base: Seq<char>, code: Seq<char>) -> Seq<char> {
    join_base + "/join?c="@ + code
}

/// The address a phone opens to join with `code`, under the origin the QR
/// points phones at.
pub fn join_url(join_base: &str, code: &str) -> (r: String)
    ensures
        r@ == join_link(join_base@, code@),
{
    let with_path = concat(join_base, "/join?c=");
    concat(with_path.as_str(), code)
}

/// The QR the TV shows for `code`: the join address, drawn as SVG.
pub fn join_qr_svg(join_base: &str, code: &str) -> (r: Result<String, String>)
    ensures
        match r {
            Ok(svg) => qr_svg_of(join_link(join_base@, code@), QR_MIN_PX) == Some(svg@),
            Err(_) => qr_svg_of(join_link(join_base@, code@), QR_MIN_PX) is None,
        },
{
    let url = join_url(join_base, code);
    render_qr_svg(url.as_str(), QR_MIN_PX)
}

} // verus!
