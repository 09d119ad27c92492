//! Who is in the room right now. The first projection — the shape every
//! later one follows.

use vstd::prelude::*;

use crate::event::{kind, Event};
use crate::projection::{fold, rebuild, Projection};
use crate::strset::{sorted_strs, views, StrSet};
use crate::text::str_eq;

verus! {

/// Who is in the room right now.
#[derive(Debug, PartialEq, Eq)]
pub struct Roster {
    present: StrSet,
}

/// The people an event names.
pub open spec fn actor_set(e: Event) -> Set<Seq<char>> {
    views(e.actors@).to_set()
}

/// How one event changes who is in the room: arrivals add their actors,
/// departures remove theirs, and nothing else touches the roster.
pub open spec fn roster_step(m: Set<Seq<char>>, e: Event) -> Set<Seq<char>> {
    if e.kind@ == kind::PRESENCE_ARRIVED@ {
        m.union(actor_set(e))
    } else if e.kind@ == kind::PRESENCE_LEFT@ {
        m.difference(actor_set(e))
    } else {
        m
    }
}

impl Roster {
    /// Person ids currently in the room, in stable alphabetical order.
    pub fn present(&self) -> (r: Vec<String>)
        ensures
            sorted_strs(views(r@)),
            views(r@).to_set() == self.model(),
    {
        let _ = self.present.len();
        self.present.to_vec()
    }

    /// The roster a log implies.
    pub fn rebuild(events: &[Event]) -> (r: Self)
        ensures
            r.model() == fold::<Roster>(events@),
    {
        rebuild::<Roster>(events)
    }

    /// An empty roster.
    pub fn default() -> (r: Self)
        ensures
            r.model() == Set::<Seq<char>>::empty(),
    {
        Self::empty()
    }
}

impl Projection for Roster {
    type Model = Set<Seq<char>>;

    closed spec fn model(&self) -> Set<Seq<char>> {
        self.present@.to_set()
    }

    open spec fn initial() -> Set<Seq<char>> {
        Set::empty()
    }

    open spec fn step(m: Set<Seq<char>>, e: Event) -> Set<Seq<char>> {
        roster_step(m, e)
    }

    fn empty() -> (r: Self) {
        let r = Roster { present: StrSet::new() };
        assert(r.present@.to_set() =~= Set::<Seq<char>>::empty());
        r
    }

    fn apply(&mut self, event: &Event) {
        let arrived = str_eq(event.kind.as_str(), kind::PRESENCE_ARRIVED);
        let left = !arrived && str_eq(event.kind.as_str(), kind::PRESENCE_LEFT);
        if !arrived && !left {
            return ;
        }
        let ghost start = self.present@.to_set();
        let mut i: usize = 0;
        while i < event.actors.len()
            invariant
                i <= event.actors@.len(),
                arrived || left,
                !(arrived && left),
                arrived ==> self.present@.to_set() == start.union(
                    views(event.actors@.subrange(0, i as int)).to_set(),
                ),
                left ==> self.present@.to_set() == start.difference(
                    views(event.actors@.subrange(0, i as int)).to_set(),
                ),
            decreases event.actors@.len() - i,
        {
            let ghost before = self.present@.to_set();
            let ghost seen = views(event.actors@.subrange(0, i as int)).to_set();
            let ghost seen_next = views(event.actors@.subrange(0, i + 1)).to_set();
            assert(seen_next == seen.insert(event.actors@[i as int]@)) by {
                assert(views(event.actors@.subrange(0, i + 1)) =~= views(
                    event.actors@.subrange(0, i as int),
                ).push(event.actors@[i as int]@));
                views(event.actors@.subrange(0, i as int)).lemma_push_to_set_commute(
                    event.actors@[i as int]@,
                );
            }
            if arrived {
                self.present.insert(event.actors[i].clone());
                assert(self.present@.to_set() =~= start.union(seen_next));
            } else {
                self.present.remove(event.actors[i].as_str());
                assert(self.present@.to_set() =~= start.difference(seen_next));
            }
            i = i + 1;
        }
        assert(event.actors@.subrange(0, event.actors@.len() as int) =~= event.actors@);
    }
}

} // verus!
