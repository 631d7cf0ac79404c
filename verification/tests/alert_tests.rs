use drift_lib::analysis::alerts::{AlertManager, AlertSeverity};
use drift_lib::analysis::anomalies::{
    AlertOp, AnomalyEngine, AnomalyObservations, BatteryLevel, DriftLevel, SensorObservation,
};
use drift_lib::navigation::safety::{CollisionRiskLevel, GeofenceStatus};
use drift_lib::simulation::flight::FlightMode;

fn calm() -> AnomalyObservations {
    AnomalyObservations {
        timestamp: "1.00s".to_string(),
        battery: BatteryLevel::Normal,
        battery_text: "80.0".to_string(),
        drift: DriftLevel::Settled,
        drift_text: "0.4".to_string(),
        sensors: Vec::new(),
        geofence: GeofenceStatus::Inside,
        x_text: "50.0".to_string(),
        y_text: "50.0".to_string(),
        collision_detected: false,
        obstacle_id_text: "None".to_string(),
        collision_risk: CollisionRiskLevel::Clear,
        nearest_obstacle_text: "35.0".to_string(),
        altitude_exceeded: false,
        altitude_text: "20.0".to_string(),
        ceiling_text: "120.0".to_string(),
        flight_mode: FlightMode::Hover,
        energy_short: false,
        home_distance_text: "10.0".to_string(),
        descending_fast: false,
        vertical_speed_text: "0.0".to_string(),
    }
}

fn active_types(m: &AlertManager) -> Vec<String> {
    m.active_alerts.iter().map(|a| a.alert_type.clone()).collect()
}

#[test]
fn alerts_are_numbered_and_not_duplicated() {
    let mut m = AlertManager::new();
    let a = m
        .trigger_alert("GPS_DRIFT_DETECTED", AlertSeverity::Warning, "1.00s", "drift", "check", None)
        .unwrap();
    assert_eq!(a.id, "ALT-0001");
    assert!(!a.acknowledged);
    assert!(m
        .trigger_alert("GPS_DRIFT_DETECTED", AlertSeverity::Critical, "2.00s", "again", "check", None)
        .is_none());
    let b = m
        .trigger_alert("LOW_BATTERY_WARNING", AlertSeverity::Warning, "3.00s", "low", "land", Some("BATTERY_LOW".to_string()))
        .unwrap();
    assert_eq!(b.id, "ALT-0002");
    assert_eq!(b.related_mission_event, Some("BATTERY_LOW".to_string()));
    assert_eq!(m.active_alerts.len(), 2);
    assert_eq!(m.alert_history.len(), 2);
    assert_eq!(m.issued_count(), 2);
    assert!(m.is_type_active("LOW_BATTERY_WARNING"));
}

#[test]
fn clearing_keeps_history_and_other_types() {
    let mut m = AlertManager::new();
    m.trigger_alert("A", AlertSeverity::Info, "0.05s", "a", "x", None);
    m.trigger_alert("B", AlertSeverity::Info, "0.10s", "b", "x", None);
    m.clear_alert_type("A");
    assert_eq!(active_types(&m), vec!["B".to_string()]);
    assert_eq!(m.alert_history.len(), 2);
    // Cleared types may fire again, with a fresh identifier.
    let again = m.trigger_alert("A", AlertSeverity::Info, "0.15s", "a", "x", None).unwrap();
    assert_eq!(again.id, "ALT-0003");
    m.clear_all();
    assert!(m.active_alerts.is_empty() && m.alert_history.is_empty());
    assert_eq!(m.issued_count(), 3);
}

#[test]
fn acknowledging_marks_only_that_alert() {
    let mut m = AlertManager::new();
    m.trigger_alert("A", AlertSeverity::Warning, "1.00s", "a", "x", None);
    m.trigger_alert("B", AlertSeverity::Warning, "1.00s", "b", "x", None);
    m.acknowledge("ALT-0002");
    assert!(!m.active_alerts[0].acknowledged);
    assert!(m.active_alerts[1].acknowledged);
    assert!(m.alert_history[1].acknowledged);
    m.acknowledge("ALT-0099");
    assert!(!m.active_alerts[0].acknowledged);
}

#[test]
fn severity_labels() {
    assert_eq!(AlertSeverity::Info.label(), "INFO");
    assert_eq!(AlertSeverity::Warning.label(), "WARNING");
    assert_eq!(AlertSeverity::Critical.label(), "CRITICAL");
}

#[test]
fn calm_observations_raise_nothing_and_clear_old_alerts() {
    let mut m = AlertManager::new();
    m.trigger_alert("LOW_BATTERY_WARNING", AlertSeverity::Warning, "0.50s", "low", "x", None);
    m.trigger_alert("GEOFENCE_BREACH", AlertSeverity::Critical, "0.50s", "out", "x", None);
    m.trigger_alert("DROPOUT_GPS", AlertSeverity::Critical, "0.50s", "gps", "x", None);
    let raised = AnomalyEngine::evaluate(&mut m, &calm());
    assert!(raised.is_empty());
    // Sensor dropouts have no clearing rule.
    assert_eq!(active_types(&m), vec!["DROPOUT_GPS".to_string()]);
}

#[test]
fn battery_rule_texts() {
    let mut m = AlertManager::new();
    let mut o = calm();
    o.battery = BatteryLevel::Critical;
    o.battery_text = "9.5".to_string();
    let raised = AnomalyEngine::evaluate(&mut m, &o);
    assert_eq!(raised.len(), 1);
    let a = &raised[0];
    assert_eq!(a.id, "ALT-0001");
    assert_eq!(a.alert_type, "LOW_BATTERY_CRITICAL");
    assert_eq!(a.severity, AlertSeverity::Critical);
    assert_eq!(a.timestamp, "1.00s");
    assert_eq!(a.description, "Battery critically depleted (9.5%). Emergency landing imminent.");
    assert_eq!(a.suggested_action, "Execute emergency landing immediately or initiate direct RTH.");
    assert_eq!(a.related_mission_event, Some("BATTERY_CRITICAL".to_string()));

    // The same condition next tick raises nothing new.
    assert!(AnomalyEngine::evaluate(&mut m, &o).is_empty());
    // Back to normal clears it.
    o.battery = BatteryLevel::Normal;
    AnomalyEngine::evaluate(&mut m, &o);
    assert!(m.active_alerts.is_empty());
    assert_eq!(m.alert_history.len(), 1);
}

#[test]
fn drift_between_thresholds_keeps_the_alert() {
    let mut m = AlertManager::new();
    let mut o = calm();
    o.drift = DriftLevel::Divergent;
    o.drift_text = "7.2".to_string();
    let raised = AnomalyEngine::evaluate(&mut m, &o);
    assert_eq!(raised[0].description, "GPS measurement divergent from inertial estimator by 7.2m.");
    o.drift = DriftLevel::Between;
    AnomalyEngine::evaluate(&mut m, &o);
    assert_eq!(active_types(&m), vec!["GPS_DRIFT_DETECTED".to_string()]);
    o.drift = DriftLevel::Settled;
    AnomalyEngine::evaluate(&mut m, &o);
    assert!(m.active_alerts.is_empty());
}

#[test]
fn every_rule_fires_in_order() {
    let mut m = AlertManager::new();
    let o = AnomalyObservations {
        timestamp: "12.35s".to_string(),
        battery: BatteryLevel::Low,
        battery_text: "20.0".to_string(),
        drift: DriftLevel::Divergent,
        drift_text: "6.5".to_string(),
        sensors: vec![
            SensorObservation {
                sensor_name: "GPS".to_string(),
                valid: false,
                degraded: true,
                confidence_text: "0".to_string(),
            },
            SensorObservation {
                sensor_name: "Compass".to_string(),
                valid: true,
                degraded: true,
                confidence_text: "35".to_string(),
            },
            SensorObservation {
                sensor_name: "IMU".to_string(),
                valid: true,
                degraded: false,
                confidence_text: "98".to_string(),
            },
        ],
        geofence: GeofenceStatus::Breached,
        x_text: "101.2".to_string(),
        y_text: "-3.0".to_string(),
        collision_detected: true,
        obstacle_id_text: "Some(\"OBS1\")".to_string(),
        collision_risk: CollisionRiskLevel::Critical,
        nearest_obstacle_text: "1.0".to_string(),
        altitude_exceeded: true,
        altitude_text: "130.0".to_string(),
        ceiling_text: "120.0".to_string(),
        flight_mode: FlightMode::Hover,
        energy_short: true,
        home_distance_text: "250.0".to_string(),
        descending_fast: true,
        vertical_speed_text: "-2.0".to_string(),
    };
    let raised = AnomalyEngine::evaluate(&mut m, &o);
    let types: Vec<&str> = raised.iter().map(|a| a.alert_type.as_str()).collect();
    assert_eq!(
        types,
        vec![
            "LOW_BATTERY_WARNING",
            "GPS_DRIFT_DETECTED",
            "DROPOUT_GPS",
            "DEGRADED_Compass",
            "GEOFENCE_BREACH",
            "COLLISION_DETECTED",
            "EXCESSIVE_ALTITUDE",
            "FAILED_RTH_ENERGY_DEFICIT",
            "UNEXPECTED_FLIGHT_STATE",
        ]
    );
    assert_eq!(raised[2].description, "Total signal loss on GPS: Fix invalid.");
    assert_eq!(raised[3].description, "Sensor Compass confidence degraded to 35%.");
    assert_eq!(raised[4].description, "Airspace boundary breached at (101.2m, -3.0m).");
    assert_eq!(raised[5].description, "Impact detected with obstacle ID Some(\"OBS1\")");
    assert_eq!(raised[6].description, "Current altitude (130.0m) exceeds ceiling limit (120.0m).");
    assert_eq!(
        raised[7].description,
        "Remaining battery (20.0%) insufficient for safe RTH transit (250.0m required)."
    );
    assert_eq!(raised[8].description, "Uncommanded descent detected during hover (-2.0 m/s).");
    assert_eq!(raised[8].id, "ALT-0009");
    assert_eq!(m.alert_history.len(), 9);
}

#[test]
fn energy_rule_skips_grounded_drones() {
    let mut m = AlertManager::new();
    let mut o = calm();
    o.energy_short = true;
    o.flight_mode = FlightMode::Landed;
    assert!(AnomalyEngine::evaluate(&mut m, &o).is_empty());
    o.flight_mode = FlightMode::Disarmed;
    assert!(AnomalyEngine::evaluate(&mut m, &o).is_empty());
    o.flight_mode = FlightMode::ReturnToHome;
    assert_eq!(AnomalyEngine::evaluate(&mut m, &o).len(), 1);
}

#[test]
fn collision_risk_levels_and_clearing() {
    let mut m = AlertManager::new();
    let mut o = calm();
    o.collision_risk = CollisionRiskLevel::Caution;
    o.nearest_obstacle_text = "5.0".to_string();
    let raised = AnomalyEngine::evaluate(&mut m, &o);
    assert_eq!(raised[0].description, "LiDAR proximity warning: Obstacle at 5.0m.");
    assert_eq!(raised[0].severity, AlertSeverity::Warning);
    o.collision_risk = CollisionRiskLevel::Critical;
    let raised = AnomalyEngine::evaluate(&mut m, &o);
    assert_eq!(raised[0].alert_type, "COLLISION_RISK_CRITICAL");
    assert_eq!(m.active_alerts.len(), 2);
    o.collision_risk = CollisionRiskLevel::Clear;
    AnomalyEngine::evaluate(&mut m, &o);
    assert!(m.active_alerts.is_empty());
}

#[test]
fn plan_lists_operations() {
    let ops = AnomalyEngine::plan(&calm());
    // Battery, drift, geofence, collision and altitude clears.
    assert_eq!(ops.len(), 8);
    assert!(ops.iter().all(|op| matches!(op, AlertOp::Clear { .. })));
    let mut m = AlertManager::new();
    let raised = AnomalyEngine::apply(&mut m, &ops, "0.00s");
    assert!(raised.is_empty());
}

fn snapshot(m: &AlertManager) -> Vec<(String, String, bool, String)> {
    m.active_alerts
        .iter()
        .chain(m.alert_history.iter())
        .map(|a| (a.id.clone(), a.alert_type.clone(), a.acknowledged, a.description.clone()))
        .collect()
}

fn assert_consistent(m: &AlertManager) {
    for (i, a) in m.active_alerts.iter().enumerate() {
        for (j, b) in m.active_alerts.iter().enumerate() {
            assert!(i == j || a.alert_type != b.alert_type);
        }
        let copies: Vec<_> = m.alert_history.iter().filter(|h| h.id == a.id).collect();
        assert_eq!(copies.len(), 1);
        let h = copies[0];
        assert_eq!(
            (&h.alert_type, h.severity, &h.timestamp, &h.description, &h.suggested_action, h.acknowledged),
            (&a.alert_type, a.severity, &a.timestamp, &a.description, &a.suggested_action, a.acknowledged)
        );
    }
    for (i, a) in m.alert_history.iter().enumerate() {
        for (j, b) in m.alert_history.iter().enumerate() {
            assert!(i == j || a.id != b.id);
        }
    }
}

#[test]
fn manager_stays_consistent_over_any_calls() {
    let mut m = AlertManager::new();
    assert_consistent(&m);
    m.trigger_alert("A", AlertSeverity::Warning, "0.05s", "a", "x", None);
    assert_consistent(&m);
    m.trigger_alert("B", AlertSeverity::Critical, "0.10s", "b", "y", None);
    m.trigger_alert("A", AlertSeverity::Info, "0.15s", "dup", "x", None);
    assert_consistent(&m);
    m.acknowledge("ALT-0002");
    assert_consistent(&m);
    assert!(m.active_alerts[1].acknowledged && m.alert_history[1].acknowledged);
    m.clear_alert_type("A");
    m.trigger_alert("A", AlertSeverity::Info, "0.20s", "again", "x", None);
    m.acknowledge("ALT-0003");
    assert_consistent(&m);
    m.clear_all();
    m.trigger_alert("B", AlertSeverity::Info, "0.25s", "b2", "y", None);
    assert_consistent(&m);
    assert_eq!(m.alert_history[0].id, "ALT-0004");
}

#[test]
fn evaluating_twice_changes_nothing() {
    let mut m = AlertManager::new();
    m.trigger_alert("GEOFENCE_WARNING", AlertSeverity::Warning, "0.50s", "w", "x", None);
    let mut o = calm();
    o.battery = BatteryLevel::Critical;
    o.drift = DriftLevel::Divergent;
    o.geofence = GeofenceStatus::Breached;
    o.collision_risk = CollisionRiskLevel::Caution;
    o.altitude_exceeded = true;
    o.sensors = vec![SensorObservation {
        sensor_name: "Lidar".to_string(),
        valid: true,
        degraded: true,
        confidence_text: "30".to_string(),
    }];
    let first = AnomalyEngine::evaluate(&mut m, &o);
    assert_eq!(first.len(), 6);
    let before = snapshot(&m);
    let issued = m.issued_count();
    let second = AnomalyEngine::evaluate(&mut m, &o);
    assert!(second.is_empty());
    assert_eq!(snapshot(&m), before);
    assert_eq!(m.issued_count(), issued);
    // Calm observations likewise settle after one evaluation.
    let c = calm();
    AnomalyEngine::evaluate(&mut m, &c);
    let settled = snapshot(&m);
    assert!(AnomalyEngine::evaluate(&mut m, &c).is_empty());
    assert_eq!(snapshot(&m), settled);
}
