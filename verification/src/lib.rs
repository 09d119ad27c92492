//! The room daemon's logic: the event log's data, every view derived from
//! it, and the rules that decide what the room does next.

pub mod seqs;
pub mod text;
pub mod strmap;
pub mod strset;
pub mod json;
pub mod event;
pub mod record;
pub mod veto;
pub mod projection;
pub mod projections;
pub mod presence;
pub mod join;
pub mod reconcile;
pub mod player;
pub mod conductor;
pub mod audio;
pub mod clock;
pub mod people;
pub mod config;
pub mod api;
pub mod launcher;
