//! Safety classifications: collision risk from obstacle proximity, and geofence status.

use vstd::prelude::*;

verus! {

/// How close the nearest obstacle is.
#[derive(Debug, Clone, Copy, PartialEq, Eq, Structural)]
pub enum CollisionRiskLevel {
    Clear,
    Caution,
    Critical,
}

/// Where the drone stands relative to the airspace perimeter.
#[derive(Debug, Clone, Copy, PartialEq, Eq, Structural)]
pub enum GeofenceStatus {
    Inside,
    WarningBuffer,
    Breached,
}

/// Spatial safety rules evaluated each simulation tick.
pub struct SafetyMonitor;

impl SafetyMonitor {
    /// Geofence status from the two boundary tests: outside the boundary (or above the
    /// ceiling) is a breach; otherwise being within the warning buffer of the perimeter is a
    /// warning; otherwise the drone is inside.
    pub fn geofence_status(outside_boundary: bool, within_warning_buffer: bool) -> (g: GeofenceStatus)
        ensures
            outside_boundary ==> g == GeofenceStatus::Breached,
            !outside_boundary && within_warning_buffer ==> g == GeofenceStatus::WarningBuffer,
            !outside_boundary && !within_warning_buffer ==> g == GeofenceStatus::Inside,
    {
        if outside_boundary {
            GeofenceStatus::Breached
        } else if within_warning_buffer {
            GeofenceStatus::WarningBuffer
        } else {
            GeofenceStatus::Inside
        }
    }

    /// Collision risk from the two proximity tests on the nearest LiDAR distance (within
    /// the critical distance, within the caution distance): critical first, then caution.
    pub fn collision_risk(within_critical: bool, within_caution: bool) -> (r: CollisionRiskLevel)
        ensures
            within_critical ==> r == CollisionRiskLevel::Critical,
            !within_critical && within_caution ==> r == CollisionRiskLevel::Caution,
            !within_critical && !within_caution ==> r == CollisionRiskLevel::Clear,
    {
        if within_critical {
            CollisionRiskLevel::Critical
        } else if within_caution {
            CollisionRiskLevel::Caution
        } else {
            CollisionRiskLevel::Clear
        }
    }

    /// The first obstacle (by position in the list) that the drone is inside of, if any.
    pub fn first_collision(inside: &Vec<bool>) -> (r: Option<usize>)
        ensures
            r matches Some(i) ==> i < inside.len() && inside@[i as int] && forall|j: int|
                0 <= j < i ==> !inside@[j],
            r is None ==> forall|j: int| 0 <= j < inside.len() ==> !inside@[j],
    {
        let mut i: usize = 0;
        while i < inside.len()
            invariant
                0 <= i <= inside.len(),
                forall|j: int| 0 <= j < i ==> !inside@[j],
            decreases inside.len() - i,
        {
            if inside[i] {
                return Some(i);
            }
            i = i + 1;
        }
        None
    }
}

} // verus!
