//! Reconstruction of a game's play-by-play log from a stream of state
//! snapshots: half-innings in order, one display event per accepted snapshot,
//! base layouts and weather tracking.

pub mod bases;
pub mod game;
pub mod laws;
pub mod names;
pub mod snapshot;
