//! How the room knows someone is here.
//!
//! Once BLE, wifi and a human's own say-so can all produce the same
//! `presence.arrived` row, the row has to say which one it was, or a reader
//! cannot tell a person in the room from a browser tab left open in a coat
//! pocket two streets away: **record what you know about how you know it,
//! rather than flattening it into the thing you wish you knew.**
//!
//! `via` is written on every row this build emits. Absent means unknown, and
//! unknown is exactly what every row written before it existed is.

use vstd::prelude::*;

use crate::event::Event;
use crate::json::{field_i64, field_str, Value};
use crate::text::str_eq;

verus! {

/// Payload key naming the signal a presence row came from.
pub const VIA: &'static str = "via";

/// Payload key carrying signal strength, for the signals that have one.
///
/// Kept as the raw reading rather than a bucketed confidence: what counts as
/// "in this room" is a property of one flat's walls.
pub const RSSI: &'static str = "rssi";

/// The signal behind a `presence.arrived` or `presence.left`.
///
/// A closed set plus an escape hatch: `POST /api/events` is an open ingest
/// port, so a producer this build has never heard of must be able to post a
/// presence row and have it survive intact — [`Via::Other`] carries that
/// value through rather than rejecting it or reading it as something it is
/// not.
#[derive(Debug, Clone, PartialEq, Eq)]
pub enum Via {
    /// A proximity radio saw something this person carries. The only signal
    /// that distinguishes *this room* from *this apartment*.
    Ble,
    /// This person's device is on the house network. Knows the flat rather
    /// than the room.
    Wifi,
    /// This person's phone has SESH open and is beating. The floor.
    Heartbeat,
    /// A human told the room, and the room believes them over its own senses.
    Asserted,
    /// A signal this build does not know about, preserved verbatim.
    Other(String),
}

/// What a [`Via`] means: the same variants, with text as characters.
pub enum ViaModel {
    /// See [`Via::Ble`].
    Ble,
    /// See [`Via::Wifi`].
    Wifi,
    /// See [`Via::Heartbeat`].
    Heartbeat,
    /// See [`Via::Asserted`].
    Asserted,
    /// See [`Via::Other`].
    Other(Seq<char>),
}

impl View for Via {
    type V = ViaModel;

    open spec fn view(&self) -> ViaModel {
        match self {
            Via::Ble => ViaModel::Ble,
            Via::Wifi => ViaModel::Wifi,
            Via::Heartbeat => ViaModel::Heartbeat,
            Via::Asserted => ViaModel::Asserted,
            Via::Other(raw) => ViaModel::Other(raw@),
        }
    }
}

/// The signal a payload's text names. Anything but the four known words is
/// carried through as it was written.
pub open spec fn via_model(raw: Seq<char>) -> ViaModel {
    if raw == "ble"@ {
        ViaModel::Ble
    } else if raw == "wifi"@ {
        ViaModel::Wifi
    } else if raw == "heartbeat"@ {
        ViaModel::Heartbeat
    } else if raw == "asserted"@ {
        ViaModel::Asserted
    } else {
        ViaModel::Other(raw)
    }
}

/// A signal's wire form, as it appears in a payload.
pub open spec fn via_text(v: ViaModel) -> Seq<char> {
    match v {
        ViaModel::Ble => "ble"@,
        ViaModel::Wifi => "wifi"@,
        ViaModel::Heartbeat => "heartbeat"@,
        ViaModel::Asserted => "asserted"@,
        ViaModel::Other(raw) => raw,
    }
}

/// The signal an event's payload says it came from, if it says.
pub open spec fn via_of(e: Event) -> Option<ViaModel> {
    match field_str(e.payload, VIA@) {
        Some(raw) => Some(via_model(raw)),
        None => None,
    }
}

/// Whether a payload is exactly `{"via": raw}`.
pub open spec fn via_payload(p: Value, raw: Seq<char>) -> bool {
    &&& p matches Value::Object(members)
    &&& members@.len() == 1
    &&& members@[0].0@ == VIA@
    &&& members@[0].1 matches Value::Str(s)
    &&& s@ == raw
}

/// A payload that says which signal a row came from: `{"via": ...}`.
pub fn via_payload_for(via: &Via) -> (r: Value)
    ensures
        via_payload(r, via_text(via@)),
        field_str(r, VIA@) == Some(via_text(via@)),
{
    let members = vec![(VIA.to_string(), Value::Str(via.as_str().to_string()))];
    let r = Value::Object(members);
    assert(r matches Value::Object(m) && m@[0].0@ == VIA@);
    r
}

proof fn lemma_words_differ()
    ensures
        "ble"@ != "wifi"@,
        "ble"@ != "heartbeat"@,
        "ble"@ != "asserted"@,
        "wifi"@ != "heartbeat"@,
        "wifi"@ != "asserted"@,
        "heartbeat"@ != "asserted"@,
{
    reveal_strlit("ble");
    reveal_strlit("wifi");
    reveal_strlit("heartbeat");
    reveal_strlit("asserted");
    assert("ble"@.len() != "wifi"@.len());
    assert("ble"@.len() != "heartbeat"@.len());
    assert("ble"@.len() != "asserted"@.len());
    assert("wifi"@.len() != "heartbeat"@.len());
    assert("wifi"@.len() != "asserted"@.len());
    assert("heartbeat"@[0] != "asserted"@[0]);
}

/// Reading a signal's text back gives the text that was read: a payload's
/// `via` survives a round trip whatever it holds.
pub proof fn lemma_text_round_trip(raw: Seq<char>)
    ensures
        via_text(via_model(raw)) == raw,
{
}

/// The four known signals survive a round trip through their wire form.
pub proof fn lemma_known_round_trip(v: ViaModel)
    requires
        !(v is Other),
    ensures
        via_model(via_text(v)) == v,
{
    lemma_words_differ();
}

impl Via {
    /// The wire form, as it appears in a payload.
    pub fn as_str(&self) -> (r: &str)
        ensures
            r@ == via_text(self@),
    {
        match self {
            Via::Ble => "ble",
            Via::Wifi => "wifi",
            Via::Heartbeat => "heartbeat",
            Via::Asserted => "asserted",
            Via::Other(raw) => raw.as_str(),
        }
    }

    /// The signal `raw` names.
    pub fn parse(raw: &str) -> (r: Via)
        ensures
            r@ == via_model(raw@),
    {
        if str_eq(raw, "ble") {
            Via::Ble
        } else if str_eq(raw, "wifi") {
            Via::Wifi
        } else if str_eq(raw, "heartbeat") {
            Via::Heartbeat
        } else if str_eq(raw, "asserted") {
            Via::Asserted
        } else {
            Via::Other(raw.to_string())
        }
    }

    /// Read the `via` off an event's payload.
    ///
    /// `None` means the row does not say — either it predates this field, or
    /// it came from a producer that knows nothing about it. Both are
    /// *unknown*, and a reader must not promote unknown to any signal.
    pub fn read(event: &Event) -> (r: Option<Via>)
        ensures
            match r {
                Some(v) => via_of(*event) == Some(v@),
                None => via_of(*event) is None,
            },
    {
        match event.payload.get(VIA) {
            Some(value) => match value.as_str() {
                Some(raw) => Some(Via::parse(raw.as_str())),
                None => None,
            },
            None => None,
        }
    }

    /// Read the `rssi` off an event's payload, when it has one.
    pub fn rssi(event: &Event) -> (r: Option<i64>)
        ensures
            r == field_i64(event.payload, RSSI@),
    {
        event.payload.get_i64(RSSI)
    }
}

impl<'a> From<&'a str> for Via {
    /// The signal `raw` names; see [`Via::parse`].
    fn from(raw: &'a str) -> (r: Via)
        ensures
            r@ == via_model(raw@),
    {
        Via::parse(raw)
    }
}

/// `Via::from` is stated on `from` itself, over the view: an unknown signal
/// holds a `String`, which a specification cannot build, so no value is
/// claimed here.
impl<'a> vstd::std_specs::convert::FromSpecImpl<&'a str> for Via {
    open spec fn obeys_from_spec() -> bool {
        false
    }

    open spec fn from_spec(v: &'a str) -> Via {
        arbitrary()
    }
}

} // verus!
