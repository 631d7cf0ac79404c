//! Verified core of the Drift drone mission simulator: alert management, sensor fault
//! bookkeeping, grid route planning, mission scripts and replay control.

pub mod analysis;
pub mod navigation;
pub mod replay;
pub mod scripting;
pub mod sensors;
pub mod simulation;
pub mod text;
