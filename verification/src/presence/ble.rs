//! Presence from a bonded phone or tag.
//!
//! The strongest `via` in the fusion, and the only one that distinguishes
//! *this room* from *this apartment*. A passive scan in a flat sees hundreds
//! of addresses, most of them rotating; a bonded device is recognisable and
//! an unbonded one is, correctly, not.
//!
//! ## Match, never enumerate
//!
//! This module compares what it sees against the people who chose to enrol,
//! and ignores everything else absolutely. It never builds a list of what is
//! in range.

use vstd::prelude::*;

use super::fusion::{record, Fusion, Heard, Said, Word};
use super::via::Via;
use crate::strmap::{
    insert_spec, lemma_insert_spec, lemma_lookup_absent, lemma_lookup_at, lemma_map_vals,
    lemma_map_vals_insert, lookup, map_vals, sorted_keys, StrMap,
};
use crate::strset::views;
use crate::veto::is_among;

verus! {

/// What `str::to_uppercase` returns for a string: its upper-case form, by
/// the Unicode case tables.
pub uninterp spec fn uppercase(s: Seq<char>) -> Seq<char>;

/// The upper-case form of `s`.
///
/// Trusted: calls `str::to_uppercase`, which returns a new string holding
/// the upper-case mapping of every character of `s`. Its result depends on
/// `s` alone; what that mapping is, character by character, is not stated.
#[verifier::external_body]
fn to_upper(s: &str) -> (r: String)
    ensures
        r@ == uppercase(s@),
{
    s.to_uppercase()
}

/// One observation of one device, as a scanner reports it.
#[derive(Debug, Clone, PartialEq, Eq)]
pub struct Sighting {
    /// The device's identity address, upper case.
    pub address: String,
    /// Signal strength, when the scanner reported one.
    ///
    /// `None` means the device is known but was not heard from — a cached
    /// entry rather than a sighting. Treating those as presence would put
    /// every phone ever bonded in the room forever.
    pub rssi: Option<i64>,
}

/// Where sightings come from.
///
/// An `Err` means *the scan failed*, which is not the same as *nobody is
/// here* and must never be recorded as such.
pub trait BondedScan {
    /// Devices heard from since the last look.
    fn sightings(&self) -> Result<Vec<Sighting>, String>;
}

/// Enrolments: device address, upper case, to person id, in address order.
pub type Enrolled = Seq<(Seq<char>, Seq<char>)>;

/// The enrolments a list of `(address, person)` pairs gives: addresses
/// upper-cased, and a later pair for the same address winning.
pub open spec fn enrolment(pairs: Seq<(String, String)>) -> Enrolled
    decreases pairs.len(),
{
    if pairs.len() == 0 {
        Seq::empty()
    } else {
        insert_spec(
            enrolment(pairs.drop_last()),
            uppercase(pairs.last().0@),
            pairs.last().1@,
        )
    }
}

/// The person a sighting belongs to: only an enrolled device that was
/// actually heard from has one.
pub open spec fn heard_person(enrolled: Enrolled, s: Sighting) -> Option<Seq<char>> {
    if s.rssi is Some {
        lookup(enrolled, uppercase(s.address@))
    } else {
        None
    }
}

/// What the fusion has heard after a round of sightings is folded in.
pub open spec fn observe_heard(h: Heard, enrolled: Enrolled, ss: Seq<Sighting>, now: i64) -> Heard
    decreases ss.len(),
{
    if ss.len() == 0 {
        h
    } else {
        let prev = observe_heard(h, enrolled, ss.drop_last(), now);
        match heard_person(enrolled, ss.last()) {
            Some(p) => record(prev, p, "ble"@, Said { word: Word::Seen, at_ms: now }),
            None => prev,
        }
    }
}

/// The people a round of sightings saw, each once, in the order first seen.
pub open spec fn observed_people(enrolled: Enrolled, ss: Seq<Sighting>) -> Seq<Seq<char>>
    decreases ss.len(),
{
    if ss.len() == 0 {
        Seq::empty()
    } else {
        let prev = observed_people(enrolled, ss.drop_last());
        match heard_person(enrolled, ss.last()) {
            Some(p) => if prev.contains(p) {
                prev
            } else {
                prev.push(p)
            },
            None => prev,
        }
    }
}

/// The addresses a round of sightings actually heard, upper case.
pub open spec fn heard_addresses(ss: Seq<Sighting>) -> Seq<Seq<char>>
    decreases ss.len(),
{
    if ss.len() == 0 {
        Seq::empty()
    } else if ss.last().rssi is Some {
        heard_addresses(ss.drop_last()).push(uppercase(ss.last().address@))
    } else {
        heard_addresses(ss.drop_last())
    }
}

/// What the fusion has heard after a completed scan that did not hear the
/// enrolled devices outside `heard`: each of their people was looked for
/// and not found, in address order.
pub open spec fn mark_missing(h: Heard, enrolled: Enrolled, heard: Seq<Seq<char>>, now: i64) -> Heard
    decreases enrolled.len(),
{
    if enrolled.len() == 0 {
        h
    } else {
        let prev = mark_missing(h, enrolled.drop_last(), heard, now);
        if heard.contains(enrolled.last().0) {
            prev
        } else {
            record(prev, enrolled.last().1, "ble"@, Said { word: Word::Missing, at_ms: now })
        }
    }
}

/// Turns sightings of enrolled devices into presence.
///
/// Holds the enrolment map — address to person — and nothing else.
#[derive(Debug)]
pub struct BleWatch {
    enrolled: StrMap<String>,
}

impl View for BleWatch {
    type V = Enrolled;

    closed spec fn view(&self) -> Enrolled {
        map_vals(self.enrolled@, |s: String| s@)
    }
}

impl BleWatch {
    /// A watch over these enrolments, as `(address, person id)`.
    pub fn new(enrolled: Vec<(String, String)>) -> (r: Self)
        ensures
            r@ == enrolment(enrolled@),
    {
        let ghost f = |s: String| s@;
        let mut map: StrMap<String> = StrMap::new();
        assert(map_vals(map@, f) =~= enrolment(enrolled@.subrange(0, 0)));
        let mut i: usize = 0;
        while i < enrolled.len()
            invariant
                i <= enrolled@.len(),
                f == (|s: String| s@),
                map_vals(map@, f) == enrolment(enrolled@.subrange(0, i as int)),
            decreases enrolled@.len() - i,
        {
            let address = to_upper(enrolled[i].0.as_str());
            let person = enrolled[i].1.clone();
            let ghost before = map@;
            let n = map.len();
            proof {
                lemma_map_vals_insert(before, f, address@, person);
                let pre = enrolled@.subrange(0, i + 1);
                assert(pre.drop_last() =~= enrolled@.subrange(0, i as int));
                assert(pre.last() == enrolled@[i as int]);
            }
            map.insert(address, person);
            i = i + 1;
        }
        assert(enrolled@.subrange(0, enrolled@.len() as int) =~= enrolled@);
        BleWatch { enrolled: map }
    }

    /// Whether anybody is enrolled at all.
    ///
    /// Nobody being enrolled is the ordinary state on the day this ships,
    /// and it is not an error: everyone stays on `heartbeat` until they bond.
    pub fn is_empty(&self) -> (r: bool)
        ensures
            r == (self@.len() == 0),
    {
        let n = self.enrolled.len();
        proof {
            lemma_map_vals(self.enrolled@, |s: String| s@, Seq::<char>::empty());
        }
        n == 0
    }

    /// The person enrolled under the identity address of `address`.
    fn person_for(&self, address: &str) -> (r: Option<&String>)
        ensures
            match r {
                Some(p) => lookup(self@, uppercase(address@)) == Some(p@),
                None => lookup(self@, uppercase(address@)) is None,
            },
    {
        let key = to_upper(address);
        proof {
            lemma_map_vals(self.enrolled@, |s: String| s@, key@);
        }
        self.enrolled.get(key.as_str())
    }
}

/// Fold one round of sightings into the fusion.
///
/// Only enrolled addresses that were actually heard from become presence.
/// Everything else is dropped without being counted, named, or logged.
///
/// Returns the people seen, for the caller to log or ignore.
pub fn observe(watch: &BleWatch, fusion: &mut Fusion, sightings: &[Sighting], now_ms: i64) -> (r: Vec<String>)
    ensures
        final(fusion)@ == observe_heard(old(fusion)@, watch@, sightings@, now_ms),
        views(r@) == observed_people(watch@, sightings@),
{
    let ghost start = fusion@;
    let mut seen: Vec<String> = Vec::new();
    let mut i: usize = 0;
    while i < sightings.len()
        invariant
            i <= sightings@.len(),
            fusion@ == observe_heard(start, watch@, sightings@.subrange(0, i as int), now_ms),
            views(seen@) == observed_people(watch@, sightings@.subrange(0, i as int)),
        decreases sightings@.len() - i,
    {
        let sighting = &sightings[i];
        proof {
            let pre = sightings@.subrange(0, i + 1);
            assert(pre.drop_last() =~= sightings@.subrange(0, i as int));
            assert(pre.last() == sightings@[i as int]);
        }
        // No RSSI means the scanner knows the device, not that it is here.
        if sighting.rssi.is_some() {
            match watch.person_for(sighting.address.as_str()) {
                Some(person) => {
                    fusion.seen(person.as_str(), &Via::Ble, now_ms);
                    if !is_among(person.as_str(), seen.as_slice()) {
                        let ghost prev = seen@;
                        seen.push(person.clone());
                        assert(views(seen@) =~= views(prev).push(person@));
                    }
                },
                // Not enrolled. Not a stranger, not a guest, not a row in
                // anything: nothing at all.
                None => {},
            }
        }
        i = i + 1;
    }
    assert(sightings@.subrange(0, sightings@.len() as int) =~= sightings@);
    seen
}

/// The people an enrolled-but-unseen device belongs to are recorded as
/// looked for and not found.
///
/// Called only when a scan actually completed. A scan that *failed* must not
/// reach this: "we looked and you were not there" is evidence, "we could not
/// look" is not.
pub fn missing(watch: &BleWatch, fusion: &mut Fusion, sightings: &[Sighting], now_ms: i64)
    ensures
        final(fusion)@ == mark_missing(old(fusion)@, watch@, heard_addresses(sightings@), now_ms),
{
    let mut heard: Vec<String> = Vec::new();
    let mut i: usize = 0;
    while i < sightings.len()
        invariant
            i <= sightings@.len(),
            views(heard@) == heard_addresses(sightings@.subrange(0, i as int)),
        decreases sightings@.len() - i,
    {
        proof {
            let pre = sightings@.subrange(0, i + 1);
            assert(pre.drop_last() =~= sightings@.subrange(0, i as int));
            assert(pre.last() == sightings@[i as int]);
        }
        if sightings[i].rssi.is_some() {
            let address = to_upper(sightings[i].address.as_str());
            let ghost prev = heard@;
            heard.push(address);
            assert(views(heard@) =~= views(prev).push(heard@.last()@));
        }
        i = i + 1;
    }
    assert(sightings@.subrange(0, sightings@.len() as int) =~= sightings@);
    let ghost heard_all = views(heard@);
    let ghost start = fusion@;
    let ghost f = |s: String| s@;
    let n = watch.enrolled.len();
    proof {
        lemma_map_vals(watch.enrolled@, f, Seq::<char>::empty());
    }
    let mut j: usize = 0;
    while j < n
        invariant
            n == watch.enrolled@.len(),
            f == (|s: String| s@),
            watch@ == map_vals(watch.enrolled@, f),
            heard_all == views(heard@),
            j <= n,
            fusion@ == mark_missing(start, watch@.subrange(0, j as int), heard_all, now_ms),
        decreases n - j,
    {
        let address = watch.enrolled.key_at(j);
        let person = watch.enrolled.value_at(j);
        proof {
            let pre = watch@.subrange(0, j + 1);
            assert(pre.drop_last() =~= watch@.subrange(0, j as int));
            assert(pre.last() == watch@[j as int]);
            assert(watch@[j as int] == (address@, person@));
        }
        if !is_among(address.as_str(), heard.as_slice()) {
            fusion.missing(person.as_str(), &Via::Ble, now_ms);
        }
        j = j + 1;
    }
    assert(watch@.subrange(0, n as int) =~= watch@);
}

} // verus!
