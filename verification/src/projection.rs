//! Projections: derived views over the event log.
//!
//! A projection caches state for speed but is never authoritative. Any
//! projection must produce the same result from an incremental stream of
//! events as from a full rebuild — that property is what lets SESH invent
//! new statistics later and apply them to every night ever recorded.

use vstd::prelude::*;

use crate::event::Event;

verus! {

/// A derived view over the event log.
///
/// Each projection states what it means — its model — and how one event
/// moves that model. Everything else about it follows from those two.
pub trait Projection: Sized {
    /// What the projection means, as a mathematical value.
    type Model;

    /// The meaning of this projection.
    spec fn model(&self) -> Self::Model;

    /// The meaning of a projection that has seen no events.
    spec fn initial() -> Self::Model;

    /// How one event moves the meaning.
    spec fn step(m: Self::Model, e: Event) -> Self::Model;

    /// A projection that has seen no events.
    fn empty() -> (r: Self)
        ensures
            r.model() == Self::initial(),
    ;

    /// Fold one event into this view.
    fn apply(&mut self, event: &Event)
        ensures
            final(self).model() == Self::step(old(self).model(), *event),
    ;
}

/// Build a view from scratch over an ordered slice of events.
pub fn rebuild<P: Projection>(events: &[Event]) -> (r: P)
    ensures
        r.model() == fold::<P>(events@),
{
    let mut projection = P::empty();
    let mut i: usize = 0;
    while i < events.len()
        invariant
            i <= events@.len(),
            projection.model() == fold::<P>(events@.subrange(0, i as int)),
        decreases events@.len() - i,
    {
        projection.apply(&events[i]);
        assert(events@.subrange(0, i + 1).drop_last() =~= events@.subrange(0, i as int));
        i = i + 1;
    }
    assert(events@.subrange(0, events@.len() as int) =~= events@);
    projection
}

/// The meaning of a projection that started at `m` and then saw `events`,
/// in order.
pub open spec fn fold_from<P: Projection>(m: P::Model, events: Seq<Event>) -> P::Model
    decreases events.len(),
{
    if events.len() == 0 {
        m
    } else {
        P::step(fold_from::<P>(m, events.drop_last()), events.last())
    }
}

/// The meaning of a projection rebuilt from `events`.
pub open spec fn fold<P: Projection>(events: Seq<Event>) -> P::Model {
    fold_from::<P>(P::initial(), events)
}

/// Catching up is rebuilding: a projection restored from one stretch of the
/// log and then fed the next stretch live means exactly what a rebuild over
/// both stretches means.
pub proof fn lemma_incremental_is_rebuild<P: Projection>(
    m: P::Model,
    earlier: Seq<Event>,
    later: Seq<Event>,
)
    ensures
        fold_from::<P>(fold_from::<P>(m, earlier), later) == fold_from::<P>(m, earlier + later),
    decreases later.len(),
{
    if later.len() == 0 {
        assert(earlier + later =~= earlier);
    } else {
        lemma_incremental_is_rebuild::<P>(m, earlier, later.drop_last());
        assert((earlier + later).drop_last() =~= earlier + later.drop_last());
        assert((earlier + later).last() == later.last());
    }
}

/// Applying one more event to a rebuilt projection is rebuilding over the
/// longer log.
pub proof fn lemma_apply_extends_rebuild<P: Projection>(events: Seq<Event>, e: Event)
    ensures
        P::step(fold::<P>(events), e) == fold::<P>(events.push(e)),
{
    assert(events.push(e).drop_last() =~= events);
}

} // verus!
