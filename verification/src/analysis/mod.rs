//! Alert and analysis subsystem for mission safety and telemetry anomalies.

pub mod alerts;
pub mod anomalies;
