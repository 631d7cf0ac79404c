use drift_lib::sensors::{FaultType, SensorKind, SensorSuite};
use drift_lib::simulation::flight::{FlightMode, FlightStatus};
use drift_lib::text::{
    char_is_whitespace, chars_of, decimal_string, float_literal_at, format_sequence_id, replace,
    to_lowercase, to_uppercase,
};

#[test]
fn fault_injection_and_clearing() {
    let mut suite = SensorSuite::new();
    suite.inject_fault(FaultType::GpsDropout);
    suite.inject_fault(FaultType::GpsDropout);
    assert!(suite.has_fault(FaultType::GpsDropout));
    assert_eq!(suite.active_faults, vec![FaultType::GpsDropout]);
    assert!(!suite.reading_valid(SensorKind::Gps));
    assert_eq!(suite.reported_fault(SensorKind::Gps), Some(FaultType::GpsDropout));

    suite.inject_fault(FaultType::ExcessiveNoise);
    suite.clear_fault(FaultType::GpsDropout);
    assert!(!suite.has_fault(FaultType::GpsDropout));
    assert!(suite.reading_valid(SensorKind::Gps));
    assert_eq!(suite.reported_fault(SensorKind::Gps), Some(FaultType::ExcessiveNoise));
    assert_eq!(suite.reported_fault(SensorKind::Lidar), Some(FaultType::ExcessiveNoise));

    suite.inject_fault(FaultType::CompassFailure);
    assert!(!suite.reading_valid(SensorKind::Compass));
    assert!(suite.reading_valid(SensorKind::Imu));
    suite.clear_all_faults();
    assert!(suite.active_faults.is_empty());
    assert_eq!(suite.reported_fault(SensorKind::Altimeter), None);
}

#[test]
fn fault_names() {
    assert_eq!(FaultType::from_name("GPS_DRIFT"), Ok(FaultType::GpsDrift));
    assert_eq!(FaultType::from_name("Lidar_Failure"), Ok(FaultType::LidarBlindSpot));
    assert_eq!(FaultType::from_name("lidar_blind_spot"), Ok(FaultType::LidarBlindSpot));
    assert_eq!(FaultType::from_name("EXCESSIVE_NOISE"), Ok(FaultType::ExcessiveNoise));
    assert_eq!(FaultType::from_name("Warp_Core"), Err("Unknown fault type: warp_core".to_string()));
    assert_eq!(FaultType::GpsDrift.label(), "GPS Drift");
    assert_eq!(FaultType::LidarBlindSpot.label(), "LiDAR Blind Spot");
    assert_eq!(FaultType::ExcessiveNoise.label(), "Excessive Sensor Noise");
}

#[test]
fn arming_rules() {
    let mut s = FlightStatus::new();
    assert_eq!(s.flight_mode, FlightMode::Disarmed);
    assert_eq!(s.takeoff(), Err("Cannot takeoff: Drone is not armed".to_string()));
    assert_eq!(s.arm(true), Err("Cannot arm drone: Battery critically low (<10%)".to_string()));
    assert!(!s.armed);
    assert_eq!(s.arm(false), Ok(()));
    assert_eq!(s.flight_mode, FlightMode::Armed);
    assert_eq!(s.takeoff(), Ok(()));
    assert_eq!(s.flight_mode, FlightMode::Takeoff);
    s.flight_mode = FlightMode::Collision;
    s.armed = false;
    assert_eq!(s.arm(false), Err("Cannot arm drone: Physical collision lock active".to_string()));
    assert_eq!(s.flight_mode, FlightMode::Collision);
}

#[test]
fn flight_mode_transitions() {
    let mut s = FlightStatus::new();
    assert!(!s.hover(true));
    s.arm(false).unwrap();
    assert!(!s.hover(false));
    assert!(s.hover(true));
    assert_eq!(s.flight_mode, FlightMode::Hover);
    s.set_waypoint(3);
    assert_eq!(s.flight_mode, FlightMode::WaypointFollow);
    assert_eq!(s.current_waypoint_index, Some(3));
    s.target_reached();
    assert_eq!(s.flight_mode, FlightMode::Hover);
    s.return_to_home();
    assert!(s.return_to_home);
    s.home_touchdown();
    assert_eq!(s.flight_mode, FlightMode::Landed);
    assert!(!s.armed && !s.return_to_home);
    assert!(s.is_resting());
    s.arm(false).unwrap();
    s.emergency_land();
    assert!(s.emergency);
    assert_eq!(s.flight_mode, FlightMode::EmergencyLand);
    s.emergency_touchdown();
    assert_eq!(s.flight_mode, FlightMode::Landed);
    s.land();
    s.disarm(false);
    assert_eq!(s.flight_mode, FlightMode::Disarmed);
    s.flight_mode = FlightMode::Collision;
    s.armed = true;
    s.collision_grounded();
    assert!(!s.armed);
    assert!(!s.is_resting());
}

#[test]
fn flight_mode_names() {
    assert_eq!(FlightMode::WaypointFollow.label(), "WAYPOINT_FOLLOW");
    assert_eq!(FlightMode::ReturnToHome.recorded_name(), "ReturnToHome");
    // The ground mode before arming is not restored from a recording.
    assert_eq!(FlightMode::from_recorded_name("Disarmed"), FlightMode::Armed);
    for m in [
        FlightMode::Armed,
        FlightMode::Takeoff,
        FlightMode::Hover,
        FlightMode::WaypointFollow,
        FlightMode::ReturnToHome,
        FlightMode::EmergencyLand,
        FlightMode::Landed,
        FlightMode::Collision,
    ] {
        assert_eq!(FlightMode::from_recorded_name(&m.recorded_name()), m);
    }
    assert_eq!(FlightMode::from_recorded_name("Flying"), FlightMode::Armed);
}

#[test]
fn text_helpers() {
    assert_eq!(decimal_string(0), "0");
    assert_eq!(decimal_string(1234567), "1234567");
    assert_eq!(format_sequence_id("ALT", 7), "ALT-0007");
    assert_eq!(format_sequence_id("EVT", 123456), "EVT-123456");
    assert!(char_is_whitespace('\u{3000}') && char_is_whitespace('\t') && !char_is_whitespace('x'));
    assert_eq!(to_lowercase("GpS_DrIfT"), "gps_drift");
    assert_eq!(to_uppercase("rth"), "RTH");
    assert_eq!(replace("a__X__b__X__", "__X__", "y"), "ayby");
    assert_eq!(replace("aaa", "aa", "b"), "ba");
    let chars = chars_of("x1.5e3y");
    assert_eq!(chars.len(), 7);
    assert!(float_literal_at(&chars, 1, 6));
    assert!(!float_literal_at(&chars, 0, 6));
}
