//! The state of the viewer and the rules by which it reacts to a run and to
//! the user; drawing it on screen happens elsewhere.

pub mod state;
pub mod actions;
pub mod events;
pub mod results;
pub mod finder;
pub mod buckets;
pub mod reclaim;
