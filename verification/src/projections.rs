//! The projections the room keeps live.


pub mod queue;
pub mod roster;
