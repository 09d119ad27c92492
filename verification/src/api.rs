//! What the LAN-facing API says, and what it accepts.
//!
//! The requests and answers of the HTTP surface as plain data, and every
//! rule a handler applies before it writes to the log. Serving HTTP is done
//! at the edge of the daemon.

pub mod apps;
pub mod auth;
pub mod events;
pub mod join;
pub mod music;
