use drift_lib::analysis::alerts::AlertManager;
use drift_lib::analysis::anomalies::{
    AnomalyEngine, AnomalyObservations, BatteryLevel, DriftLevel,
};
use drift_lib::navigation::astar::AStarPlanner;
use drift_lib::navigation::occupancy::OccupancyGrid;
use drift_lib::navigation::route::smooth_route;
use drift_lib::navigation::safety::SafetyMonitor;
use drift_lib::scripting::commands::parse_mission_script;
use drift_lib::simulation::flight::FlightMode;

/// Grid cells of a 200 m x 200 m area at 2 m resolution with one obstacle of radius 25 m at
/// (100, 100), dilated by a 2 m margin, as the occupancy rasterizer marks them.
fn tower_grid() -> OccupancyGrid {
    let resolution = 2.0_f64;
    let width = (200.0_f64 / resolution).ceil() as usize;
    let height = (200.0_f64 / resolution).ceil() as usize;
    let mut grid = OccupancyGrid::new(width, height);
    let (ox, oy, radius) = (100.0_f64, 100.0_f64, 25.0_f64 + 2.0);
    let min_gx = ((ox - radius) / resolution).floor().max(0.0) as usize;
    let max_gx = ((ox + radius) / resolution).ceil().min((width - 1) as f64) as usize;
    let min_gy = ((oy - radius) / resolution).floor().max(0.0) as usize;
    let max_gy = ((oy + radius) / resolution).ceil().min((height - 1) as f64) as usize;
    for gy in min_gy..=max_gy {
        for gx in min_gx..=max_gx {
            let wx = (gx as f64 + 0.5) * resolution;
            let wy = (gy as f64 + 0.5) * resolution;
            if ((wx - ox).powi(2) + (wy - oy).powi(2)).sqrt() <= radius {
                grid.set_occupied(gx, gy, true);
            }
        }
    }
    grid
}

fn blocked_at(grid: &OccupancyGrid, wx: f64, wy: f64) -> bool {
    if wx < 0.0 || wx >= 200.0 || wy < 0.0 || wy >= 200.0 {
        return true;
    }
    grid.is_occupied((wx / 2.0).floor() as usize, (wy / 2.0).floor() as usize)
}

fn line_of_sight(grid: &OccupancyGrid, p1: (f64, f64), p2: (f64, f64)) -> bool {
    let dist = ((p2.0 - p1.0).powi(2) + (p2.1 - p1.1).powi(2)).sqrt();
    let steps = (dist / (2.0 * 0.4)).ceil() as usize;
    if steps == 0 {
        return true;
    }
    for i in 0..=steps {
        let t = i as f64 / steps as f64;
        if blocked_at(grid, p1.0 + (p2.0 - p1.0) * t, p1.1 + (p2.1 - p1.1) * t) {
            return false;
        }
    }
    true
}

#[test]
fn test_astar_occupancy_planning() {
    let grid = tower_grid();
    let start = (20.0_f64, 100.0_f64);
    let goal = (180.0_f64, 100.0_f64);
    let start_cell = ((start.0 / 2.0).floor() as usize, (start.1 / 2.0).floor() as usize);
    let goal_cell = ((goal.0 / 2.0).floor() as usize, (goal.1 / 2.0).floor() as usize);

    let cells = AStarPlanner::plan_cells(&grid, start_cell, goal_cell)
        .expect("Path should exist around obstacle");
    let mut points: Vec<(f64, f64)> = cells
        .iter()
        .map(|&(gx, gy)| ((gx as f64 + 0.5) * 2.0, (gy as f64 + 0.5) * 2.0))
        .collect();
    let last = points.len() - 1;
    points[0] = start;
    points[last] = goal;
    let keep = smooth_route(points.len(), &|i: usize, j: usize| line_of_sight(&grid, points[i], points[j]));
    let path: Vec<(f64, f64)> = keep.iter().map(|&k| points[k]).collect();
    assert!(path.len() >= 2);

    // Verify path avoids center of obstacle
    for pt in &path {
        let dist = ((pt.0 - 100.0).powi(2) + (pt.1 - 100.0).powi(2)).sqrt();
        assert!(dist >= 20.0, "Path came too close to obstacle: dist={}", dist);
    }
}

#[test]
fn test_safety_and_anomaly_alerts() {
    let mut alert_mgr = AlertManager::new();
    // A drone at (95, 50) in a 100 m x 100 m area with a 50 m ceiling, 10 m up, 20% battery,
    // with the nearest obstacle 5 m away by LiDAR.
    let (x, y, altitude, battery, lidar_min) = (95.0_f64, 50.0_f64, 10.0_f64, 20.0_f64, 5.0_f64);
    let outside = x < 0.0 || x > 100.0 || y < 0.0 || y > 100.0 || altitude > 50.0;
    let near = x < 15.0 || x > 100.0 - 15.0 || y < 15.0 || y > 100.0 - 15.0;
    let observations = AnomalyObservations {
        timestamp: format!("{:.2}s", 10.0_f64),
        battery: if battery < 12.0 {
            BatteryLevel::Critical
        } else if battery < 25.0 {
            BatteryLevel::Low
        } else {
            BatteryLevel::Normal
        },
        battery_text: format!("{:.1}", battery),
        drift: DriftLevel::Settled,
        drift_text: format!("{:.1}", 0.0_f64),
        sensors: Vec::new(),
        geofence: SafetyMonitor::geofence_status(outside, near),
        x_text: format!("{:.1}", x),
        y_text: format!("{:.1}", y),
        collision_detected: false,
        obstacle_id_text: "None".to_string(),
        collision_risk: SafetyMonitor::collision_risk(lidar_min < 2.8, lidar_min < 8.0),
        nearest_obstacle_text: format!("{:.1}", lidar_min),
        altitude_exceeded: altitude > 50.0,
        altitude_text: format!("{:.1}", altitude),
        ceiling_text: format!("{:.1}", 50.0_f64),
        flight_mode: FlightMode::Disarmed,
        energy_short: false,
        home_distance_text: "0.0".to_string(),
        descending_fast: false,
        vertical_speed_text: "0.0".to_string(),
    };

    let alerts = AnomalyEngine::evaluate(&mut alert_mgr, &observations);
    assert!(!alerts.is_empty());
    assert!(alerts.iter().any(|a| a.alert_type == "LOW_BATTERY_WARNING"
        || a.alert_type == "COLLISION_RISK_CAUTION"
        || a.alert_type == "GEOFENCE_WARNING"));
}

#[test]
fn test_script_parser() {
    let script = r#"
        TAKEOFF 20
        WAIT 5
        GOTO 150 180 25
        INJECT GPS_DRIFT
        WAIT 3
        RETURN_HOME
    "#;

    let cmds = parse_mission_script(script).expect("Script parsing should succeed");
    assert_eq!(cmds.len(), 6);
}
