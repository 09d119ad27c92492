//! Closing launches the log never saw end.
//!
//! The launcher pairs `app.launched` with `app.exited` in memory. Restart the
//! daemon while an app is running and that pairing is gone: the append-only
//! log keeps a launch that nothing will ever close. This is routine — a
//! config reload, a crash, someone pulling the plug.
//!
//! At startup those launches are closed. The daemon cannot know *when* the
//! app went, so it does not pretend to: the closing event carries
//! `exit_observed: false` and the bound the log can actually prove.

use vstd::prelude::*;

use crate::event::{kind, opt_view, Event, NewEvent};
use crate::json::{field_bool, field_i64, field_str, Value};
use crate::record::Log;
use crate::strset::views;
use crate::text::{owned, str_eq};

verus! {

/// Recorded on a closing event so consumers can tell an observed exit from
/// an inferred one. A projection computing session lengths must not treat
/// an inferred exit as a measurement.
pub const EXIT_OBSERVED: &'static str = "exit_observed";

/// Why the exit was never seen. Free text for humans reading the log.
pub const REASON: &'static str = "seshd restarted while this app was running";

/// A launch still open: the app, and the id of the event that launched it.
pub type Open = Seq<(Seq<char>, i64)>;

/// `open` without any launch of `app`.
pub open spec fn without(open: Open, app: Seq<char>) -> Open {
    open.filter(|x: (Seq<char>, i64)| x.0 != app)
}

/// How one event moves the open launches. A launch or exit with no subject
/// names no app; two launches with no exit between them leave one open
/// entry, the later one, since that is the launch whose exit is missing.
pub open spec fn open_step(open: Open, e: Event) -> Open {
    match e.subject {
        Some(s) => if e.kind@ == kind::APP_LAUNCHED@ {
            without(open, s@).push((s@, e.id))
        } else if e.kind@ == kind::APP_EXITED@ {
            without(open, s@)
        } else {
            open
        },
        None => open,
    }
}

/// The launches a log leaves open, in the order they were (last) launched.
pub open spec fn open_after(events: Seq<Event>) -> Open
    decreases events.len(),
{
    if events.len() == 0 {
        Seq::empty()
    } else {
        open_step(open_after(events.drop_last()), events.last())
    }
}

/// How many leading entries of `s` have an id no greater than `id`.
pub open spec fn first_after(s: Open, id: i64) -> int
    decreases s.len(),
{
    if s.len() == 0 || s[0].1 > id {
        0
    } else {
        1 + first_after(s.drop_first(), id)
    }
}

/// `s` sorted by id, stably: of two launches with one id, the one listed
/// first stays first.
pub open spec fn by_id(s: Open) -> Open
    decreases s.len(),
{
    if s.len() == 0 {
        Seq::empty()
    } else {
        let t = by_id(s.drop_last());
        t.insert(first_after(t, s.last().1), s.last())
    }
}

/// The launches a closing pass closes, ordered by the id that opened them.
pub open spec fn still_open(events: Seq<Event>) -> Open {
    by_id(open_after(events))
}

/// The newest timestamp of a log: the latest instant the daemon can prove it
/// was watching and had not recorded an exit.
pub open spec fn last_alive(events: Seq<Event>) -> Option<i64> {
    if events.len() == 0 {
        None
    } else {
        Some(events.last().ts_ms)
    }
}

/// Whether `p` is the payload of a closing event:
/// `{"exit_observed": false, "reason": ..., "last_alive_ms": ...}`, the last
/// member only when the log had any event.
pub open spec fn closing_payload(p: Value, alive: Option<i64>) -> bool {
    &&& p matches Value::Object(m)
    &&& m@.len() == if alive is Some { 3int } else { 2int }
    &&& m@[0].0@ == EXIT_OBSERVED@ && m@[0].1 == Value::Bool(false)
    &&& m@[1].0@ == "reason"@
    &&& (m@[1].1 matches Value::Str(r) && r@ == REASON@)
    &&& (alive matches Some(ms) ==> m@[2].0@ == "last_alive_ms"@ && m@[2].1 == Value::Int(ms))
}

/// Whether `e` closes a launch of `app` after a log whose newest event was
/// at `alive`.
pub open spec fn closes(e: NewEvent, app: Seq<char>, alive: Option<i64>) -> bool {
    &&& e.kind@ == kind::APP_EXITED@
    &&& e.actors@.len() == 0
    &&& opt_view(e.subject) == Some(app)
    &&& closing_payload(e.payload, alive)
}

/// The model of a list of open launches.
pub open spec fn open_view(v: Seq<(String, i64)>) -> Open {
    v.map_values(|x: (String, i64)| (x.0@, x.1))
}

/// `open` without any launch of `app`.
fn drop_app(open: &Vec<(String, i64)>, app: &str) -> (r: Vec<(String, i64)>)
    ensures
        open_view(r@) == without(open_view(open@), app@),
{
    let ghost s = open_view(open@);
    let ghost keep = |x: (Seq<char>, i64)| x.0 != app@;
    let mut out: Vec<(String, i64)> = Vec::new();
    let mut i: usize = 0;
    proof {
        crate::seqs::lemma_filter_nothing(s, keep);
    }
    while i < open.len()
        invariant
            i <= open@.len(),
            s == open_view(open@),
            keep == (|x: (Seq<char>, i64)| x.0 != app@),
            open_view(out@) == s.subrange(0, i as int).filter(keep),
        decreases open@.len() - i,
    {
        proof {
            crate::seqs::lemma_filter_prefix(s, keep, i as int);
        }
        if !str_eq(open[i].0.as_str(), app) {
            let entry = (open[i].0.clone(), open[i].1);
            let ghost prev = out@;
            out.push(entry);
            assert(open_view(out@) =~= open_view(prev).push(s[i as int]));
        }
        i = i + 1;
    }
    proof {
        crate::seqs::lemma_full_prefix(s);
    }
    out
}

/// `open` sorted by id, stably.
fn sort_by_id(open: &Vec<(String, i64)>) -> (r: Vec<(String, i64)>)
    ensures
        open_view(r@) == by_id(open_view(open@)),
{
    let ghost s = open_view(open@);
    let mut sorted: Vec<(String, i64)> = Vec::new();
    assert(s.subrange(0, 0) =~= Seq::<(Seq<char>, i64)>::empty());
    let n = open.len();
    // Take the entries front to back, inserting each after every entry
    // already placed whose id is no greater.
    let mut i: usize = 0;
    while i < n
        invariant
            n == s.len(),
            s == open_view(open@),
            i <= n,
            open_view(sorted@) == by_id(s.subrange(0, i as int)),
        decreases n - i,
    {
        let x = (open[i].0.clone(), open[i].1);
        assert((x.0@, x.1) == s[i as int]);
        let ghost t = open_view(sorted@);
        let mut p: usize = 0;
        assert(t.subrange(0, t.len() as int) =~= t);
        while p < sorted.len() && sorted[p].1 <= x.1
            invariant
                p <= sorted@.len(),
                t == open_view(sorted@),
                first_after(t, x.1) == p + first_after(t.subrange(p as int, t.len() as int), x.1),
            decreases sorted@.len() - p,
        {
            assert(t.subrange(p as int, t.len() as int).drop_first() =~= t.subrange(
                p + 1,
                t.len() as int,
            ));
            p = p + 1;
        }
        proof {
            if p < sorted.len() {
                assert(t.subrange(p as int, t.len() as int)[0] == t[p as int]);
            }
            assert(first_after(t, x.1) == p);
            let pre = s.subrange(0, i + 1);
            assert(pre.drop_last() =~= s.subrange(0, i as int));
            assert(pre.last() == s[i as int]);
        }
        sorted.insert(p, x);
        assert(open_view(sorted@) =~= t.insert(p as int, s[i as int]));
        i = i + 1;
    }
    assert(s.subrange(0, n as int) =~= s);
    sorted
}

/// The payload of a closing event.
fn closing(alive: Option<i64>) -> (r: Value)
    ensures
        closing_payload(r, alive),
{
    let mut members: Vec<(String, Value)> = Vec::new();
    members.push((owned(EXIT_OBSERVED), Value::Bool(false)));
    members.push((owned("reason"), Value::Str(owned(REASON))));
    if let Some(ms) = alive {
        members.push((owned("last_alive_ms"), Value::Int(ms)));
    }
    Value::Object(members)
}

/// The closing events a log needs to become self-consistent.
///
/// Walks `events` in order and returns one `app.exited` for every
/// `app.launched` still open at the end, ordered by the id of the launch.
/// Pure: no clock, no I/O. The store assigns each returned event its
/// `ts_ms`, which is the upper bound on when the app died.
///
/// Returns nothing for a log that is already consistent, which makes running
/// it twice a no-op.
pub fn unfinished_launches(events: &[Event]) -> (r: Vec<NewEvent>)
    ensures
        r@.len() == still_open(events@).len(),
        forall|i: int|
            0 <= i < r@.len() ==> closes(
                #[trigger] r@[i],
                still_open(events@)[i].0,
                last_alive(events@),
            ),
{
    let mut open: Vec<(String, i64)> = Vec::new();
    let mut i: usize = 0;
    assert(events@.subrange(0, 0) =~= Seq::<Event>::empty());
    assert(open_view(open@) =~= Seq::<(Seq<char>, i64)>::empty());
    while i < events.len()
        invariant
            i <= events@.len(),
            open_view(open@) == open_after(events@.subrange(0, i as int)),
        decreases events@.len() - i,
    {
        let event = &events[i];
        proof {
            let pre = events@.subrange(0, i + 1);
            assert(pre.drop_last() =~= events@.subrange(0, i as int));
            assert(pre.last() == events@[i as int]);
        }
        match &event.subject {
            Some(subject) => {
                if str_eq(event.kind.as_str(), kind::APP_LAUNCHED) {
                    let mut kept = drop_app(&open, subject.as_str());
                    let ghost prev = kept@;
                    kept.push((subject.clone(), event.id));
                    assert(open_view(kept@) =~= open_view(prev).push((subject@, event.id)));
                    open = kept;
                } else if str_eq(event.kind.as_str(), kind::APP_EXITED) {
                    open = drop_app(&open, subject.as_str());
                }
            },
            // A launch or exit with no subject names no app.
            None => {},
        }
        i = i + 1;
    }
    assert(events@.subrange(0, events@.len() as int) =~= events@);
    let ordered = sort_by_id(&open);
    let alive = if events.len() > 0 {
        Some(events[events.len() - 1].ts_ms)
    } else {
        None
    };
    let mut out: Vec<NewEvent> = Vec::new();
    let mut j: usize = 0;
    while j < ordered.len()
        invariant
            j <= ordered@.len(),
            open_view(ordered@) == still_open(events@),
            alive == last_alive(events@),
            out@.len() == j,
            forall|k: int|
                0 <= k < j ==> closes(#[trigger] out@[k], still_open(events@)[k].0, alive),
        decreases ordered@.len() - j,
    {
        let e = NewEvent::new(kind::APP_EXITED).subject(ordered[j].0.as_str()).payload(
            closing(alive),
        );
        out.push(e);
        j = j + 1;
    }
    out
}

proof fn lemma_first_after(t: Open, id: i64)
    ensures
        0 <= first_after(t, id) <= t.len(),
        forall|k: int| 0 <= k < first_after(t, id) ==> (#[trigger] t[k]).1 <= id,
        first_after(t, id) < t.len() ==> t[first_after(t, id)].1 > id,
    decreases t.len(),
{
    if t.len() > 0 && t[0].1 <= id {
        let r = t.drop_first();
        lemma_first_after(r, id);
        assert forall|k: int| 0 <= k < first_after(t, id) implies (#[trigger] t[k]).1 <= id by {
            if k > 0 {
                assert(t[k] == r[k - 1]);
            }
        }
        if first_after(t, id) < t.len() {
            assert(t[first_after(t, id)] == r[first_after(r, id)]);
        }
    }
}

proof fn lemma_by_id_entries(s: Open)
    ensures
        by_id(s).len() == s.len(),
        forall|x: (Seq<char>, i64)| by_id(s).contains(x) <==> s.contains(x),
    decreases s.len(),
{
    if s.len() > 0 {
        let rest = s.drop_last();
        let t = by_id(rest);
        let x = s.last();
        lemma_by_id_entries(rest);
        lemma_first_after(t, x.1);
        let p = first_after(t, x.1);
        let r = t.insert(p, x);
        assert forall|y: (Seq<char>, i64)| r.contains(y) <==> s.contains(y) by {
            if r.contains(y) {
                let k = choose|k: int| 0 <= k < r.len() && r[k] == y;
                if k < p {
                    assert(t[k] == y);
                    assert(t.contains(y));
                    assert(rest.contains(y));
                    let j = choose|j: int| 0 <= j < rest.len() && rest[j] == y;
                    assert(s[j] == y);
                } else if k > p {
                    assert(t[k - 1] == y);
                    assert(t.contains(y));
                    assert(rest.contains(y));
                    let j = choose|j: int| 0 <= j < rest.len() && rest[j] == y;
                    assert(s[j] == y);
                } else {
                    assert(s[s.len() - 1] == y);
                }
            }
            if s.contains(y) {
                let j = choose|j: int| 0 <= j < s.len() && s[j] == y;
                if j < s.len() - 1 {
                    assert(rest[j] == y);
                    assert(rest.contains(y));
                    let k = choose|k: int| 0 <= k < t.len() && t[k] == y;
                    if k < p {
                        assert(r[k] == y);
                    } else {
                        assert(r[k + 1] == y);
                    }
                } else {
                    assert(r[p] == y);
                }
            }
        }
    }
}

/// Whether `after` is `before` followed by the first `k` closings `history`
/// needs, in order.
pub open spec fn closed_first(
    before: Seq<NewEvent>,
    after: Seq<NewEvent>,
    history: Seq<Event>,
    k: int,
) -> bool {
    &&& 0 <= k <= still_open(history).len()
    &&& after.len() == before.len() + k
    &&& after.subrange(0, before.len() as int) == before
    &&& forall|i: int|
        0 <= i < k ==> closes(
            #[trigger] after[before.len() + i],
            still_open(history)[i].0,
            last_alive(history),
        )
}

/// Close every launch `history` left open, through `log`, and return the
/// apps closed so the caller can say so out loud.
///
/// Stops at the first append that fails; what was appended before it stays,
/// and running this again over the longer log closes the rest.
pub fn close_unfinished_launches<L: Log>(history: &[Event], log: &mut L) -> (r: Result<
    Vec<String>,
    String,
>)
    ensures
        r matches Ok(closed) ==> closed_first(
            old(log).recorded(),
            final(log).recorded(),
            history@,
            still_open(history@).len() as int,
        ) && views(closed@) == still_open(history@).map_values(|x: (Seq<char>, i64)| x.0),
        r is Err ==> exists|k: int|
            closed_first(old(log).recorded(), final(log).recorded(), history@, k),
        still_open(history@).len() == 0 ==> (r matches Ok(c) && c@.len() == 0),
{
    let mut rows = unfinished_launches(history);
    let total = rows.len();
    let ghost all = rows@;
    let ghost before = log.recorded();
    let ghost n = all.len();
    let mut closed: Vec<String> = Vec::new();
    let mut i: usize = 0;
    assert(log.recorded().subrange(0, before.len() as int) =~= before);
    while rows.len() > 0
        invariant
            n == all.len(),
            n == total,
            before == old(log).recorded(),
            n == still_open(history@).len(),
            forall|k: int|
                0 <= k < n ==> closes(
                    #[trigger] all[k],
                    still_open(history@)[k].0,
                    last_alive(history@),
                ),
            i <= n,
            rows@ == all.subrange(i as int, n as int),
            closed_first(before, log.recorded(), history@, i as int),
            views(closed@) == still_open(history@).map_values(|x: (Seq<char>, i64)| x.0).subrange(
                0,
                i as int,
            ),
        decreases rows@.len(),
    {
        assert(rows@.len() == n - i);
        let row = rows.remove(0);
        assert(row == all[i as int]);
        let subject = crate::event::clone_opt(&row.subject);
        let ghost prev = log.recorded();
        match log.record(row) {
            Ok(()) => {},
            Err(e) => {
                assert(closed_first(before, log.recorded(), history@, i as int));
                return Err(e);
            },
        }
        proof {
            let now = log.recorded();
            assert(now.subrange(0, before.len() as int) =~= before) by {
                assert(prev.subrange(0, before.len() as int) == before);
                assert forall|j: int| 0 <= j < before.len() implies now[j] == before[j] by {
                    assert(now[j] == prev[j]);
                }
            }
            assert forall|k: int| 0 <= k < i + 1 implies closes(
                #[trigger] now[before.len() + k],
                still_open(history@)[k].0,
                last_alive(history@),
            ) by {
                if k < i {
                    assert(now[before.len() + k] == prev[before.len() + k]);
                }
            }
        }
        let ghost names = still_open(history@).map_values(|x: (Seq<char>, i64)| x.0);
        match subject {
            Some(app) => {
                let ghost old_closed = closed@;
                closed.push(app);
                assert(views(closed@) =~= views(old_closed).push(names[i as int]));
            },
            None => {
                assert(false);
            },
        }
        i = i + 1;
        assert(views(closed@) =~= names.subrange(0, i as int));
        assert(rows@ =~= all.subrange(i as int, n as int));
    }
    Ok(closed)
}

/// The closing events come out in the order their launches opened: by the
/// id of the launch.
pub proof fn lemma_closings_in_launch_order(events: Seq<Event>)
    ensures
        forall|i: int, j: int|
            0 <= i < j < still_open(events).len() ==> (#[trigger] still_open(events)[i]).1
                <= (#[trigger] still_open(events)[j]).1,
{
    lemma_by_id_sorted(open_after(events));
}

proof fn lemma_by_id_sorted(s: Open)
    ensures
        forall|i: int, j: int| 0 <= i < j < by_id(s).len() ==> (#[trigger] by_id(s)[i]).1 <= (
        #[trigger] by_id(s)[j]).1,
    decreases s.len(),
{
    if s.len() > 0 {
        let rest = s.drop_last();
        let t = by_id(rest);
        let x = s.last();
        lemma_by_id_sorted(rest);
        lemma_first_after(t, x.1);
        let p = first_after(t, x.1);
        let r = t.insert(p, x);
        assert forall|i: int, j: int| 0 <= i < j < r.len() implies (#[trigger] r[i]).1 <= (
        #[trigger] r[j]).1 by {
            if j < p {
                assert(r[i] == t[i] && r[j] == t[j]);
            } else if j == p {
                assert(r[i] == t[i]);
            } else if i < p {
                assert(r[i] == t[i] && r[j] == t[j - 1]);
            } else if i == p {
                assert(r[j] == t[j - 1]);
                assert(t[p].1 > x.1);
                if j - 1 > p {
                    assert(t[p].1 <= t[j - 1].1);
                }
            } else {
                assert(r[i] == t[i - 1] && r[j] == t[j - 1]);
            }
        }
    }
}

proof fn lemma_exits_only_close(events: Seq<Event>, closings: Seq<Event>, x: (Seq<char>, i64))
    requires
        forall|i: int|
            0 <= i < closings.len() ==> (#[trigger] closings[i]).kind@ == kind::APP_EXITED@
                && closings[i].subject is Some,
        open_after(events + closings).contains(x),
    ensures
        open_after(events).contains(x),
        forall|i: int|
            0 <= i < closings.len() ==> opt_view((#[trigger] closings[i]).subject) != Some(x.0),
    decreases closings.len(),
{
    broadcast use vstd::seq_lib::group_filter_ensures;

    if closings.len() == 0 {
        assert(events + closings =~= events);
    } else {
        let c = closings.drop_last();
        let last = closings.last();
        assert((events + closings).drop_last() =~= events + c);
        assert((events + closings).last() == last);
        assert(closings[closings.len() - 1] == last);
        reveal_strlit("app.exited");
        reveal_strlit("app.launched");
        assert(kind::APP_EXITED@.len() != kind::APP_LAUNCHED@.len());
        let s = last.subject->0;
        let prev = open_after(events + c);
        assert(open_after(events + closings) == without(prev, s@));
        let keep = |y: (Seq<char>, i64)| y.0 != s@;
        prev.lemma_filter_contains_rev(keep, x);
        let k = choose|k: int| 0 <= k < prev.filter(keep).len() && prev.filter(keep)[k] == x;
        assert(keep(prev.filter(keep)[k]));
        assert forall|i: int| 0 <= i < c.len() implies (#[trigger] c[i]).kind@ == kind::APP_EXITED@
            && c[i].subject is Some by {
            assert(c[i] == closings[i]);
        }
        lemma_exits_only_close(events, c, x);
        assert forall|i: int| 0 <= i < closings.len() implies opt_view(
            (#[trigger] closings[i]).subject,
        ) != Some(x.0) by {
            if i < c.len() {
                assert(closings[i] == c[i]);
            }
        }
    }
}

/// Closing is idempotent: once the closing events a log needs have been
/// appended to it, whatever ids and times the store gave them, the log
/// needs no more.
pub proof fn lemma_closing_is_idempotent(events: Seq<Event>, closings: Seq<Event>)
    requires
        closings.len() == still_open(events).len(),
        forall|i: int|
            0 <= i < closings.len() ==> (#[trigger] closings[i]).kind@ == kind::APP_EXITED@
                && opt_view(closings[i].subject) == Some(still_open(events)[i].0),
    ensures
        still_open(events + closings).len() == 0,
{
    let after = open_after(events + closings);
    lemma_by_id_entries(after);
    if after.len() > 0 {
        let x = after[0];
        assert(after.contains(x));
        assert forall|i: int| 0 <= i < closings.len() implies (#[trigger] closings[i]).kind@
            == kind::APP_EXITED@ && closings[i].subject is Some by {}
        lemma_exits_only_close(events, closings, x);
        lemma_by_id_entries(open_after(events));
        assert(still_open(events).contains(x));
        let k = choose|k: int| 0 <= k < still_open(events).len() && still_open(events)[k] == x;
        assert(opt_view(closings[k].subject) == Some(x.0));
    }
}

} // verus!
