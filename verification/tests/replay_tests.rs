use drift_lib::replay::recording::{record_frame, MAX_RECORDED_FRAMES};
use drift_lib::analysis::alerts::{AlertManager, AlertSeverity};
use drift_lib::replay::export::{CsvRow, MissionExporter, ReportInputs, CSV_HEADER};
use drift_lib::replay::replayer::TrafficReplayer;
use drift_lib::simulation::events::{recent_of, EventLog, MissionEvent};
use drift_lib::simulation::flight::FlightMode;

fn event(id: &str, ts: &str) -> MissionEvent {
    MissionEvent {
        id: id.to_string(),
        timestamp: ts.to_string(),
        event_type: "TEST".to_string(),
        description: format!("event {}", id),
        details: None,
    }
}

#[test]
fn event_log_numbers_events() {
    let mut log = EventLog::new();
    log.log_event("DRONE_ARMED", "Motors armed in ground standby", None, "0.00s");
    log.log_event("NOTE", "with details", Some(serde_json::Value::Bool(true)), "0.05s");
    assert_eq!(log.logged_count(), 2);
    assert_eq!(log.events[0].id, "EVT-0001");
    assert_eq!(log.events[1].id, "EVT-0002");
    assert_eq!(log.events[1].timestamp, "0.05s");
    let recent = log.recent(1);
    assert_eq!(recent.len(), 1);
    assert_eq!(recent[0].id, "EVT-0002");
    assert_eq!(recent[0].details, Some(serde_json::Value::Bool(true)));
    let all = log.recent(20);
    assert_eq!(all.iter().map(|e| e.id.as_str()).collect::<Vec<_>>(), vec!["EVT-0002", "EVT-0001"]);
    assert!(recent_of(&Vec::new(), 5).is_empty());
}

#[test]
fn replay_controls_keep_a_consistent_position() {
    let mut r: TrafficReplayer<u32> = TrafficReplayer::new();
    r.play();
    assert!(!r.is_playing);
    assert_eq!(r.seek(3), None);
    assert_eq!(r.current(), None);
    assert!(!r.advance(2));

    r.load_mission(vec![10, 11, 12, 13, 14], Vec::new(), Vec::new());
    assert!(r.is_active && !r.is_playing);
    assert!(!r.advance(1));
    r.play();
    assert!(r.can_step());
    assert!(!r.advance(0));
    assert!(r.advance(2));
    assert_eq!(r.current(), Some(&12));
    assert!(r.advance(10));
    assert_eq!(r.current_index, 4);
    assert!(!r.is_playing);
    assert_eq!(r.seek(1), Some(1));
    assert_eq!(r.seek(99), Some(4));
    r.resume();
    assert!(r.jump_to_end());
    assert_eq!(r.current_index, 4);
    assert!(!r.is_playing);
    r.reset();
    assert_eq!(r.current_index, 0);
    assert!(r.is_active);
    r.pause();
    r.stop();
    assert!(!r.is_active && !r.is_playing);
    r.play();
    assert!(!r.is_playing);
    assert!(!r.jump_to_end());

    r.load_mission(Vec::new(), Vec::new(), Vec::new());
    assert!(!r.is_active);
}

#[test]
fn replay_shows_visible_events_newest_first() {
    let mut r: TrafficReplayer<u32> = TrafficReplayer::new();
    let events: Vec<MissionEvent> = (0..50).map(|i| event(&format!("E{}", i), "1.00s")).collect();
    let mut mgr = AlertManager::new();
    mgr.trigger_alert("A", AlertSeverity::Info, "1.00s", "a", "x", None);
    mgr.trigger_alert("B", AlertSeverity::Info, "9.00s", "b", "x", None);
    let alerts = vec![mgr.active_alerts.remove(0), mgr.active_alerts.remove(0)];
    r.load_mission(vec![1], events, alerts);

    let visible: Vec<bool> = (0..50).map(|i| i % 2 == 0).collect();
    let shown = r.visible_events(&visible);
    assert_eq!(shown.len(), 25);
    assert_eq!(shown[0].id, "E48");
    assert_eq!(shown[24].id, "E0");

    let all = r.visible_events(&vec![true; 50]);
    assert_eq!(all.len(), 40);
    assert_eq!(all[0].id, "E49");
    assert_eq!(all[39].id, "E10");

    let a = r.visible_alerts(&vec![true, false]);
    assert_eq!(a.len(), 1);
    assert_eq!(a[0].alert_type, "A");
}

#[test]
fn exporter_rows_and_badges() {
    assert_eq!(MissionExporter::badge_class(AlertSeverity::Critical), "badge-critical");
    assert_eq!(MissionExporter::badge_class(AlertSeverity::Warning), "badge-warning");
    assert_eq!(MissionExporter::badge_class(AlertSeverity::Info), "badge-info");
    let rows = MissionExporter::event_rows(&vec![event("E1", "0.50s")]);
    assert_eq!(
        rows,
        "<tr><td class=\"mono\">0.50s</td><td><span class=\"badge badge-event\">TEST</span></td><td>event E1</td></tr>\n"
    );
    let mut mgr = AlertManager::new();
    mgr.trigger_alert("GEOFENCE_WARNING", AlertSeverity::Warning, "2.00s", "near edge", "turn back", None);
    let rows = MissionExporter::alert_rows(&mgr.alert_history);
    assert_eq!(
        rows,
        "<tr><td class=\"mono\">2.00s</td><td><span class=\"badge badge-warning\">GEOFENCE_WARNING</span></td><td>near edge</td><td class=\"subtle\">turn back</td></tr>\n"
    );
    assert_eq!(MissionExporter::points(&vec!["1.5,2.0".to_string(), "3.0,4.5".to_string()]), "1.5,2.0 3.0,4.5 ");
    assert_eq!(MissionExporter::event_rows(&Vec::new()), "");
}

#[test]
fn csv_export_numbers_samples() {
    let rows = vec![
        CsvRow { values: vec!["0.05".to_string(), "1.00".to_string()], flight_mode: FlightMode::Takeoff },
        CsvRow { values: vec!["0.10".to_string(), "1.50".to_string()], flight_mode: FlightMode::WaypointFollow },
    ];
    let csv = MissionExporter::to_csv(&rows);
    assert!(csv.starts_with("step,sim_time_sec"));
    assert_eq!(csv, format!("{}0,0.05,1.00,TAKEOFF\n1,0.10,1.50,WAYPOINT_FOLLOW\n", CSV_HEADER));
    assert_eq!(MissionExporter::to_csv(&Vec::new()), CSV_HEADER);
}

#[test]
fn html_report_fills_every_placeholder() {
    let mut mgr = AlertManager::new();
    mgr.trigger_alert("LOW_BATTERY_WARNING", AlertSeverity::Warning, "5.00s", "low", "land", None);
    let inputs = ReportInputs {
        name: "Test Mission".to_string(),
        id: "MSN-TEST-01".to_string(),
        start_time: "0.00s".to_string(),
        duration_text: "10.0".to_string(),
        distance_text: "85.4".to_string(),
        max_altitude_text: "20.0".to_string(),
        battery_text: "4.5".to_string(),
        raw_points: vec!["0.0,600.0".to_string()],
        filtered_points: vec!["1.5,598.5".to_string()],
        events: vec![event("EVT-0001", "0.00s")],
        alerts: mgr.alert_history,
    };
    let html = MissionExporter::to_html_report(&inputs);
    assert!(html.contains("<!DOCTYPE html>"));
    assert!(html.contains("Mission Report: Test Mission"));
    assert!(html.contains("<title>Drift Mission Report: Test Mission</title>"));
    assert!(html.contains("ID: MSN-TEST-01"));
    assert!(html.contains("10.0s"));
    assert!(html.contains(">1<"));
    assert!(html.contains("points=\"0.0,600.0 \""));
    assert!(html.contains("badge-warning\">LOW_BATTERY_WARNING"));
    assert!(!html.contains("__"));
}

#[test]
fn recording_keeps_every_fourth_tick_up_to_the_limit() {
    let mut frames: Vec<u64> = Vec::new();
    let kept: Vec<bool> = (1..=8u64).map(|t| record_frame(&mut frames, t, t)).collect();
    assert_eq!(kept, vec![false, false, false, true, false, false, false, true]);
    assert_eq!(frames, vec![4, 8]);
    let mut full: Vec<u64> = vec![0; MAX_RECORDED_FRAMES];
    assert!(!record_frame(&mut full, 12, 12));
    assert_eq!(full.len(), 5000);
}
