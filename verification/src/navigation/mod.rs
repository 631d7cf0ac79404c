//! Navigation subsystem: occupancy mapping and grid route planning.

pub mod astar;
pub mod occupancy;
pub mod safety;
pub mod route;
pub mod trail;
