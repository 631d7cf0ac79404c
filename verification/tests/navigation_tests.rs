use drift_lib::navigation::astar::{find_nearest_free_cell, AStarPlanner, DIAGONAL_COST, STRAIGHT_COST};
use drift_lib::navigation::occupancy::OccupancyGrid;
use drift_lib::navigation::route::{smooth_route, RouteFollower};
use drift_lib::navigation::safety::{CollisionRiskLevel, GeofenceStatus, SafetyMonitor};
use drift_lib::navigation::trail::TrailRecorder;

fn legal_route(grid: &OccupancyGrid, route: &[(usize, usize)]) -> bool {
    route.windows(2).all(|w| {
        let (ax, ay) = (w[0].0 as i64, w[0].1 as i64);
        let (bx, by) = (w[1].0 as i64, w[1].1 as i64);
        let (dx, dy) = (bx - ax, by - ay);
        let step = dx.abs() <= 1 && dy.abs() <= 1 && (dx, dy) != (0, 0);
        let corner_ok = dx == 0
            || dy == 0
            || (!grid.is_occupied(w[0].0, w[1].1) && !grid.is_occupied(w[1].0, w[0].1));
        step && corner_ok && !grid.is_occupied(w[1].0, w[1].1)
    })
}

#[test]
fn grid_marks_and_bounds() {
    let mut g = OccupancyGrid::new(4, 3);
    assert_eq!(g.width_cells(), 4);
    assert_eq!(g.height_cells(), 3);
    assert!(!g.is_occupied(3, 2));
    assert!(g.is_occupied(4, 0));
    assert!(g.is_occupied(0, 3));
    g.set_occupied(1, 2, true);
    g.set_occupied(9, 9, true);
    assert!(g.is_occupied(1, 2));
    assert!(!g.is_occupied(2, 1));
    g.clear();
    assert!(!g.is_occupied(1, 2));
}

#[test]
fn straight_route_on_an_empty_grid() {
    let g = OccupancyGrid::new(10, 10);
    let route = AStarPlanner::plan_cells(&g, (1, 1), (5, 1)).unwrap();
    assert_eq!(route.first(), Some(&(1, 1)));
    assert_eq!(route.last(), Some(&(5, 1)));
    assert_eq!(route.len(), 5);
    assert!(legal_route(&g, &route));
}

#[test]
fn route_goes_around_a_wall() {
    let mut g = OccupancyGrid::new(10, 10);
    for y in 0..9 {
        g.set_occupied(5, y, true);
    }
    let route = AStarPlanner::plan_cells(&g, (1, 1), (8, 1)).unwrap();
    assert_eq!(route[0], (1, 1));
    assert_eq!(*route.last().unwrap(), (8, 1));
    assert!(legal_route(&g, &route));
    assert!(route.iter().any(|&(_, y)| y == 9));
}

#[test]
fn no_route_through_a_closed_wall() {
    let mut g = OccupancyGrid::new(10, 10);
    for y in 0..10 {
        g.set_occupied(5, y, true);
    }
    assert!(AStarPlanner::plan_cells(&g, (1, 1), (8, 1)).is_none());
}

#[test]
fn diagonal_moves_never_cut_corners() {
    let mut g = OccupancyGrid::new(3, 3);
    g.set_occupied(1, 0, true);
    g.set_occupied(0, 1, true);
    // (0,0) is boxed in: its only free neighbour (1,1) is diagonal past two blocked cells.
    assert!(AStarPlanner::plan_cells(&g, (0, 0), (2, 2)).is_none());
}

#[test]
fn planning_edge_cases() {
    let mut g = OccupancyGrid::new(6, 6);
    // Off-grid ends plan nothing.
    assert!(AStarPlanner::plan_cells(&g, (6, 0), (1, 1)).is_none());
    assert!(AStarPlanner::plan_cells(&g, (0, 0), (1, 6)).is_none());
    // Start equals goal: the pair is returned.
    assert_eq!(AStarPlanner::plan_cells(&g, (2, 2), (2, 2)), Some(vec![(2, 2), (2, 2)]));
    // A blocked goal is replaced by the nearest free cell in scan order.
    g.set_occupied(4, 4, true);
    assert_eq!(find_nearest_free_cell(&g, 4, 4), Some((3, 3)));
    let route = AStarPlanner::plan_cells(&g, (0, 0), (4, 4)).unwrap();
    assert_eq!(*route.last().unwrap(), (3, 3));
    // With no free cell at all there is nothing to plan to.
    let mut full = OccupancyGrid::new(2, 2);
    for x in 0..2 {
        for y in 0..2 {
            full.set_occupied(x, y, true);
        }
    }
    assert_eq!(find_nearest_free_cell(&full, 0, 0), None);
    assert!(AStarPlanner::plan_cells(&full, (0, 0), (1, 1)).is_none());
}

#[test]
fn nearest_free_cell_scans_rows_then_columns() {
    let mut g = OccupancyGrid::new(5, 5);
    for x in 1..4 {
        for y in 1..4 {
            g.set_occupied(x, y, true);
        }
    }
    // Radius 1 is all blocked; radius 2 starts at (0, 0).
    assert_eq!(find_nearest_free_cell(&g, 2, 2), Some((0, 0)));
    g.set_occupied(0, 0, true);
    assert_eq!(find_nearest_free_cell(&g, 2, 2), Some((1, 0)));
}

#[test]
fn smoothing_keeps_short_routes_and_pulls_strings() {
    assert_eq!(smooth_route(0, &|_: usize, _: usize| true), Vec::<usize>::new());
    assert_eq!(smooth_route(2, &|_: usize, _: usize| false), vec![0, 1]);
    assert_eq!(smooth_route(5, &|_: usize, _: usize| true), vec![0, 4]);
    assert_eq!(smooth_route(5, &|_: usize, _: usize| false), vec![0, 1, 2, 3, 4]);
    // Point 3 cannot be seen from 0, so the scan from 0 stops at 2 (even though 4 is visible).
    let sight = |a: usize, b: usize| !(a == 0 && b == 3);
    assert_eq!(smooth_route(5, &sight), vec![0, 2, 4]);
}

#[test]
fn follower_walks_the_route() {
    let mut f: RouteFollower<(i32, i32)> = RouteFollower::new();
    assert_eq!(f.follow(vec![(0, 0)]), Err("Path planning returned trivial path".to_string()));
    assert_eq!(f.follow(vec![(0, 0), (1, 1), (2, 2)]), Ok(1));
    assert_eq!(f.target(), Some(&(1, 1)));
    assert_eq!(f.waypoint_reached(false), None);
    assert_eq!(f.current_route_index, 1);
    assert_eq!(f.waypoint_reached(true), Some(2));
    assert_eq!(f.target(), Some(&(2, 2)));
    assert_eq!(f.waypoint_reached(true), None);
    assert_eq!(f.target(), None);
    assert_eq!(f.current_route_index, 3);
    assert_eq!(f.waypoint_reached(true), None);
    assert_eq!(f.current_route_index, 3);
    f.clear();
    assert!(f.planned_route.is_empty());
}

#[test]
fn trails_record_every_fourth_sample_and_stay_bounded() {
    let mut t: TrailRecorder<u32> = TrailRecorder::new(3);
    let mut recorded = Vec::new();
    for i in 1..=20u32 {
        recorded.push(t.record(i, 100 + i));
    }
    assert_eq!(recorded.iter().filter(|r| **r).count(), 5);
    assert!(recorded[3] && !recorded[4]);
    assert_eq!(t.raw_trail, vec![12, 16, 20]);
    assert_eq!(t.filtered_trail, vec![112, 116, 120]);
    t.reset();
    assert!(t.raw_trail.is_empty());
    assert_eq!(t.sample_counter, 0);
}

#[test]
fn safety_classifications() {
    assert_eq!(SafetyMonitor::geofence_status(true, true), GeofenceStatus::Breached);
    assert_eq!(SafetyMonitor::geofence_status(false, true), GeofenceStatus::WarningBuffer);
    assert_eq!(SafetyMonitor::geofence_status(false, false), GeofenceStatus::Inside);
    assert_eq!(SafetyMonitor::collision_risk(true, true), CollisionRiskLevel::Critical);
    assert_eq!(SafetyMonitor::collision_risk(false, true), CollisionRiskLevel::Caution);
    assert_eq!(SafetyMonitor::collision_risk(false, false), CollisionRiskLevel::Clear);
    assert_eq!(SafetyMonitor::first_collision(&vec![false, true, true]), Some(1));
    assert_eq!(SafetyMonitor::first_collision(&vec![false, false]), None);
}

fn route_cost(route: &[(usize, usize)]) -> u128 {
    route
        .windows(2)
        .map(|w| if w[0].0 == w[1].0 || w[0].1 == w[1].1 { STRAIGHT_COST } else { DIAGONAL_COST })
        .sum()
}

fn cheapest_cost(grid: &OccupancyGrid, start: (usize, usize), goal: (usize, usize)) -> Option<u128> {
    let (w, h) = (grid.width_cells(), grid.height_cells());
    let mut best: Vec<Option<u128>> = vec![None; w * h];
    let mut done = vec![false; w * h];
    best[start.1 * w + start.0] = Some(0);
    loop {
        let mut pick: Option<usize> = None;
        for i in 0..w * h {
            if !done[i] && best[i].is_some() && pick.map_or(true, |p| best[i] < best[p]) {
                pick = Some(i);
            }
        }
        let Some(i) = pick else { return None };
        let (x, y) = (i % w, i / w);
        if (x, y) == goal {
            return best[i];
        }
        done[i] = true;
        for dy in -1i64..=1 {
            for dx in -1i64..=1 {
                let (nx, ny) = (x as i64 + dx, y as i64 + dy);
                if (dx, dy) == (0, 0) || nx < 0 || ny < 0 || nx >= w as i64 || ny >= h as i64 {
                    continue;
                }
                let (nx, ny) = (nx as usize, ny as usize);
                if !legal_route(grid, &[(x, y), (nx, ny)]) {
                    continue;
                }
                let c = best[i].unwrap() + route_cost(&[(x, y), (nx, ny)]);
                let j = ny * w + nx;
                if best[j].map_or(true, |b| c < b) {
                    best[j] = Some(c);
                }
            }
        }
    }
}

#[test]
fn routes_are_the_cheapest_possible() {
    let g = OccupancyGrid::new(10, 10);
    let route = AStarPlanner::plan_cells(&g, (0, 0), (3, 5)).unwrap();
    assert_eq!(route.len(), 6);
    assert_eq!(route_cost(&route), 3 * DIAGONAL_COST + 2 * STRAIGHT_COST);

    let mut walled = OccupancyGrid::new(12, 9);
    for y in 1..9 {
        walled.set_occupied(4, y, true);
    }
    for y in 0..7 {
        walled.set_occupied(8, y, true);
    }
    walled.set_occupied(6, 4, true);
    for &(s, t) in &[((1, 7), (10, 1)), ((0, 0), (11, 8)), ((2, 3), (6, 7)), ((10, 0), (0, 8))] {
        let route = AStarPlanner::plan_cells(&walled, s, t).unwrap();
        assert_eq!(route[0], s);
        assert_eq!(*route.last().unwrap(), t);
        assert!(legal_route(&walled, &route));
        assert_eq!(Some(route_cost(&route)), cheapest_cost(&walled, s, t));
    }
}
