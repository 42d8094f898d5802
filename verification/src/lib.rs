//! Selects the freshest mirrors of a software distribution channel.
//!
//! The crate parses a mirror-list document into mirror records, models
//! a probing round that discovers each mirror's content version under a
//! concurrency bound, and reduces the probed set to the mirrors that
//! report the maximum observed version.

pub mod country;
pub mod events;
pub mod mirror;
pub mod parser;
pub mod prober;
pub mod protocol;
pub mod selector;
pub mod target;
pub mod text;
pub mod urls;
