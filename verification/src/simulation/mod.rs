//! Drone mode logic and the mission event log.

pub mod flight;
pub mod events;
