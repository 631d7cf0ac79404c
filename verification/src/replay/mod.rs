//! Replay of recorded missions and mission export.

pub mod export;
pub mod recording;
pub mod replayer;
