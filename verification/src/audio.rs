//! Whether the room's speaker is there.
//!
//! The room's speaker is a record player that is also a Bluetooth speaker,
//! and those two things are the same input. Put a record on and Bluetooth
//! stops being the active input, so the sink disappears.
//!
//! That is not a fault to be recovered from. **The speaker disconnecting is
//! the vinyl handoff signal** — the room asking to play a record instead —
//! and it arrives for free as a side effect of noticing the sink went away.

use vstd::prelude::*;

use crate::strset::views;
use crate::text::{chars_of, starts_with, string_from_chars};

verus! {

/// Sink names beginning with this belong to a Bluetooth device.
///
/// A2DP sinks are named `bluez_output.<MAC>.<profile>`. Matching the prefix
/// rather than the full name means no configuration: the MAC is not known
/// until the speaker is paired, and the room has one speaker.
pub const BLUETOOTH_PREFIX: &'static str = "bluez_output.";

/// How often to look, in milliseconds. A record going on is a human-scale
/// event; polling faster buys nothing.
pub const WATCH_INTERVAL_MS: u64 = 5_000;

/// The pieces of `s` between occurrences of `sep`, as `str::split` gives
/// them: one more piece than there are separators.
pub open spec fn pieces(s: Seq<char>, sep: char) -> Seq<Seq<char>>
    decreases s.len(),
{
    if s.len() == 0 {
        seq![Seq::empty()]
    } else {
        let rest = pieces(s.drop_last(), sep);
        if s.last() == sep {
            rest.push(Seq::empty())
        } else {
            rest.update(rest.len() - 1, rest.last().push(s.last()))
        }
    }
}

/// A line with the carriage return of a `\r\n` ending removed.
pub open spec fn strip_cr(line: Seq<char>) -> Seq<char> {
    if line.len() > 0 && line.last() == '\r' {
        line.drop_last()
    } else {
        line
    }
}

/// The lines of `s`, as `str::lines` gives them: split at `\n` or `\r\n`,
/// with the final line ending optional.
pub open spec fn lines(s: Seq<char>) -> Seq<Seq<char>> {
    let p = pieces(s, '\n');
    let ended = p.drop_last().map_values(|l: Seq<char>| strip_cr(l));
    if p.last().len() > 0 {
        ended.push(p.last())
    } else {
        ended
    }
}

/// The second tab-separated column of a line, if it has one.
pub open spec fn second_column(line: Seq<char>) -> Option<Seq<char>> {
    if pieces(line, '\t').len() > 1 {
        Some(pieces(line, '\t')[1])
    } else {
        None
    }
}

/// The sink names in the output of `pactl list short sinks`: the second
/// column of every line that has one.
pub open spec fn sink_names(stdout: Seq<char>) -> Seq<Seq<char>> {
    lines(stdout).filter(|l: Seq<char>| second_column(l) is Some).map_values(
        |l: Seq<char>| second_column(l)->0,
    )
}

proof fn lemma_pieces_nonempty(s: Seq<char>, sep: char)
    ensures
        pieces(s, sep).len() >= 1,
    decreases s.len(),
{
    if s.len() > 0 {
        lemma_pieces_nonempty(s.drop_last(), sep);
    }
}

proof fn lemma_prefix_step(s: Seq<char>, i: int)
    requires
        0 <= i < s.len(),
    ensures
        s.subrange(0, i + 1).drop_last() == s.subrange(0, i),
        s.subrange(0, i + 1).last() == s[i],
{
    assert(s.subrange(0, i + 1).drop_last() =~= s.subrange(0, i));
}

/// The second column of `line`, if it has one.
fn column_two(line: &Vec<char>) -> (r: Option<Vec<char>>)
    ensures
        match r {
            Some(c) => second_column(line@) == Some(c@),
            None => second_column(line@) is None,
        },
{
    let ghost l = line@;
    let mut tabs: usize = 0;
    let mut field: Vec<char> = Vec::new();
    let mut j: usize = 0;
    assert(l.subrange(0, 0) =~= Seq::<char>::empty());
    while j < line.len()
        invariant
            l == line@,
            j <= l.len(),
            tabs == 0 ==> pieces(l.subrange(0, j as int), '\t').len() == 1 && field@.len() == 0,
            tabs > 0 ==> pieces(l.subrange(0, j as int), '\t').len() > 1 && field@ == pieces(
                l.subrange(0, j as int),
                '\t',
            )[1],
            tabs == 1 ==> pieces(l.subrange(0, j as int), '\t').len() == 2,
            tabs == 2 ==> pieces(l.subrange(0, j as int), '\t').len() >= 3,
            tabs <= 2,
        decreases l.len() - j,
    {
        let c = line[j];
        let ghost p0 = pieces(l.subrange(0, j as int), '\t');
        proof {
            lemma_prefix_step(l, j as int);
            lemma_pieces_nonempty(l.subrange(0, j as int), '\t');
            let p1 = pieces(l.subrange(0, j + 1), '\t');
            assert(p1 == if c == '\t' {
                p0.push(Seq::<char>::empty())
            } else {
                p0.update(p0.len() - 1, p0.last().push(c))
            });
        }
        if c == '\t' {
            if tabs < 2 {
                tabs = tabs + 1;
            }
        } else if tabs == 1 {
            field.push(c);
        }
        j = j + 1;
    }
    assert(l.subrange(0, l.len() as int) =~= l);
    if tabs > 0 {
        Some(field)
    } else {
        None
    }
}

/// Pull sink names out of `pactl list short sinks`.
///
/// Tab-separated, name in the second column.
pub fn parse_sinks(stdout: &str) -> (r: Vec<String>)
    ensures
        views(r@) == sink_names(stdout@),
{
    let text = chars_of(stdout);
    let ghost s = stdout@;
    let ghost keep = |l: Seq<char>| second_column(l) is Some;
    let ghost name = |l: Seq<char>| second_column(l)->0;
    let mut out: Vec<String> = Vec::new();
    let mut current: Vec<char> = Vec::new();
    let ghost mut done: Seq<Seq<char>> = Seq::empty();
    let mut i: usize = 0;
    assert(s.subrange(0, 0) =~= Seq::<char>::empty());
    assert(pieces(s.subrange(0, 0), '\n') =~= done.push(current@));
    while i < text.len()
        invariant
            text@ == s,
            i <= s.len(),
            keep == (|l: Seq<char>| second_column(l) is Some),
            name == (|l: Seq<char>| second_column(l)->0),
            pieces(s.subrange(0, i as int), '\n') == done.push(current@),
            views(out@) == done.map_values(|l: Seq<char>| strip_cr(l)).filter(keep).map_values(
                name,
            ),
        decreases s.len() - i,
    {
        let c = text[i];
        proof {
            lemma_prefix_step(s, i as int);
        }
        if c == '\n' {
            // A `\r\n` ending leaves its carriage return on the line.
            let mut line = current;
            if line.len() > 0 && line[line.len() - 1] == '\r' {
                line.pop();
            }
            let ghost stripped = line@;
            let ghost whole = done.push(current@);
            assert(stripped == strip_cr(whole.last()));
            let ghost prev_out = views(out@);
            match column_two(&line) {
                Some(col) => {
                    out.push(string_from_chars(col.as_slice()));
                },
                None => {},
            }
            proof {
                let mapped = whole.map_values(|l: Seq<char>| strip_cr(l));
                assert(mapped =~= done.map_values(|l: Seq<char>| strip_cr(l)).push(stripped));
                crate::seqs::lemma_filter_prefix(mapped, keep, done.len() as int);
                assert(mapped.subrange(0, done.len() as int + 1) =~= mapped);
                assert(mapped.subrange(0, done.len() as int) =~= done.map_values(
                    |l: Seq<char>| strip_cr(l),
                ));
                if keep(stripped) {
                    assert(views(out@) =~= prev_out.push(name(stripped)));
                }
                done = whole;
            }
            current = Vec::new();
        } else {
            current.push(c);
        }
        i = i + 1;
        assert(pieces(s.subrange(0, i as int), '\n') =~= done.push(current@));
    }
    assert(s.subrange(0, s.len() as int) =~= s);
    // The final line needs no ending.
    if current.len() > 0 {
        let ghost prev_out = views(out@);
        let ghost last = current@;
        match column_two(&current) {
            Some(col) => {
                out.push(string_from_chars(col.as_slice()));
            },
            None => {},
        }
        proof {
            let ended = done.map_values(|l: Seq<char>| strip_cr(l));
            crate::seqs::lemma_filter_prefix(ended.push(last), keep, ended.len() as int);
            assert(ended.push(last).subrange(0, ended.len() as int + 1) =~= ended.push(last));
            assert(ended.push(last).subrange(0, ended.len() as int) =~= ended);
            assert(pieces(s, '\n').drop_last() =~= done);
            if keep(last) {
                assert(views(out@) =~= prev_out.push(name(last)));
            }
        }
    } else {
        assert(pieces(s, '\n').drop_last() =~= done);
    }
    out
}

/// What changed since the last look, if anything.
#[derive(Debug, Clone, PartialEq, Eq)]
pub enum Change {
    /// The speaker appeared. Carries its sink name.
    Found(String),
    /// The speaker went away. Carries the sink name it had.
    Lost(String),
}

/// The audio sinks the box can play to.
pub trait Sinks {
    /// Names of every sink currently available.
    fn names(&self) -> Result<Vec<String>, String>;
}

/// Sinks a test hands over directly.
#[derive(Debug)]
pub struct MockSinks {
    names: Vec<String>,
}

/// The owned strings of some string slices.
fn owned_all(names: &[&str]) -> (r: Vec<String>)
    ensures
        r@.len() == names@.len(),
        forall|i: int| 0 <= i < names@.len() ==> (#[trigger] r@[i])@ == names@[i]@,
{
    let mut out: Vec<String> = Vec::new();
    let mut i: usize = 0;
    while i < names.len()
        invariant
            i <= names@.len(),
            out@.len() == i,
            forall|k: int| 0 <= k < i ==> (#[trigger] out@[k])@ == names@[k]@,
        decreases names@.len() - i,
    {
        out.push(names[i].to_string());
        i = i + 1;
    }
    out
}

impl MockSinks {
    /// The names the next look will find.
    pub closed spec fn listed(&self) -> Seq<Seq<char>> {
        views(self.names@)
    }

    /// Start with these sinks present.
    pub fn new(names: &[&str]) -> (r: Self)
        ensures
            r.listed().len() == names@.len(),
            forall|i: int| 0 <= i < names@.len() ==> #[trigger] r.listed()[i] == names@[i]@,
    {
        MockSinks { names: owned_all(names) }
    }

    /// Replace what the next look will find.
    pub fn set(&mut self, names: &[&str])
        ensures
            final(self).listed().len() == names@.len(),
            forall|i: int| 0 <= i < names@.len() ==> #[trigger] final(self).listed()[i] == names@[i]@,
    {
        self.names = owned_all(names);
    }
}

impl Sinks for MockSinks {
    /// The names this mock was last given.
    fn names(&self) -> (r: Result<Vec<String>, String>)
        ensures
            r matches Ok(v) && views(v@) == self.listed(),
    {
        Ok(crate::event::clone_strings(&self.names))
    }
}

/// The first name that starts with `prefix`.
pub open spec fn first_with_prefix(names: Seq<Seq<char>>, prefix: Seq<char>) -> Option<Seq<char>>
    decreases names.len(),
{
    if names.len() == 0 {
        None
    } else if prefix.len() <= names[0].len() && names[0].subrange(0, prefix.len() as int)
        == prefix {
        Some(names[0])
    } else {
        first_with_prefix(names.drop_first(), prefix)
    }
}

/// What a look that found `found`, after one that found `previous`, reports.
pub open spec fn transition(previous: Option<Seq<char>>, found: Option<Seq<char>>) -> Option<
    (bool, Seq<char>),
> {
    match (previous, found) {
        (None, Some(name)) => Some((true, name)),
        (Some(name), None) => Some((false, name)),
        _ => None,
    }
}

/// Turns a sequence of observations into transitions.
///
/// Pure: no clock, no I/O. Transitions only — the log gains a row when the
/// speaker comes or goes, not one every few seconds all evening.
#[derive(Debug)]
pub struct SinkWatch {
    prefix: String,
    /// `None` until the first look. Seeding rather than reporting means a
    /// restart while the speaker is connected does not invent a
    /// `sink_found` for a speaker that never went anywhere.
    speaker: Option<Option<String>>,
}

/// What a watch knows: the prefix it watches for, and what it last saw —
/// nothing before its first look.
pub struct WatchModel {
    /// The prefix watched for.
    pub prefix: Seq<char>,
    /// The speaker last seen, once there has been a look.
    pub speaker: Option<Option<Seq<char>>>,
}

impl View for SinkWatch {
    type V = WatchModel;

    closed spec fn view(&self) -> WatchModel {
        WatchModel {
            prefix: self.prefix@,
            speaker: match self.speaker {
                Some(Some(s)) => Some(Some(s@)),
                Some(None) => Some(None),
                None => None,
            },
        }
    }
}

impl SinkWatch {
    /// Watch for sinks whose name starts with `prefix`.
    pub fn new(prefix: &str) -> (r: Self)
        ensures
            r@.prefix == prefix@,
            r@.speaker is None,
    {
        SinkWatch { prefix: prefix.to_string(), speaker: None }
    }

    /// Feed one observation and get back what changed.
    ///
    /// The first look seeds and says nothing: there is no transition to
    /// report when there was nothing to transition from. A speaker swapped
    /// for a different Bluetooth sink is not a transition of the thing being
    /// watched.
    pub fn observe(&mut self, names: &[String]) -> (r: Option<Change>)
        ensures
            final(self)@ == (WatchModel {
                prefix: old(self)@.prefix,
                speaker: Some(first_with_prefix(views(names@), old(self)@.prefix)),
            }),
            match old(self)@.speaker {
                None => r is None,
                Some(previous) => match transition(
                    previous,
                    first_with_prefix(views(names@), old(self)@.prefix),
                ) {
                    Some((true, name)) => r matches Some(Change::Found(n)) && n@ == name,
                    Some((false, name)) => r matches Some(Change::Lost(n)) && n@ == name,
                    None => r is None,
                },
            },
    {
        let ghost all = views(names@);
        let mut found: Option<String> = None;
        let mut i: usize = 0;
        assert(all.subrange(0, all.len() as int) =~= all);
        while i < names.len() && found.is_none()
            invariant
                all == views(names@),
                i <= names@.len(),
                found is None ==> first_with_prefix(all, self.prefix@) == first_with_prefix(
                    all.subrange(i as int, all.len() as int),
                    self.prefix@,
                ),
                found matches Some(f) ==> first_with_prefix(all, self.prefix@) == Some(f@),
            decreases names@.len() - i,
        {
            let ghost rest = all.subrange(i as int, all.len() as int);
            assert(rest[0] == names@[i as int]@);
            assert(rest.drop_first() =~= all.subrange(i + 1, all.len() as int));
            if starts_with(names[i].as_str(), self.prefix.as_str()) {
                found = Some(names[i].clone());
            }
            i = i + 1;
        }
        proof {
            if found is None {
                assert(all.subrange(i as int, all.len() as int) =~= Seq::<Seq<char>>::empty());
            }
        }
        let seen = match &found {
            Some(f) => Some(f.clone()),
            None => None,
        };
        let previous = self.speaker.take();
        self.speaker = Some(seen);
        let previous = match previous {
            Some(p) => p,
            None => return None,
        };
        match (previous, found) {
            (None, Some(name)) => Some(Change::Found(name)),
            (Some(name), None) => Some(Change::Lost(name)),
            _ => None,
        }
    }
}

} // verus!
