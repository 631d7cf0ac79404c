//! Anomaly detection engine inspecting flight telemetry, sensor fidelity, and spatial
//! safety rules.
//!
//! Each tick the engine turns what was observed into an ordered list of alert operations
//! (raise an alert of a type, or clear a type) and applies them to the alert manager. The
//! measured quantities reach the engine already classified (battery level, estimator
//! divergence, sensor health, geofence and collision state) together with their rendered
//! numbers, which the alert texts quote.

use vstd::prelude::*;
use vstd::string::*;
use super::alerts::{
    alerts_view, clear_outcome, has_alert_type, law_clear_keeps_other_types,
    law_clear_removes_type, law_trigger_keeps_types_unique, law_trigger_makes_type_active,
    trigger_outcome, types_unique, Alert, AlertManager, AlertManagerView, AlertSeverity,
    AlertView,
};
use crate::navigation::safety::{CollisionRiskLevel, GeofenceStatus};
use crate::simulation::flight::FlightMode;

verus! {

broadcast use vstd::string::group_string_axioms;

/// Battery charge band: critical below 12%, low below 25%, else normal.
#[derive(Debug, Clone, Copy, PartialEq, Eq, Structural)]
pub enum BatteryLevel {
    Critical,
    Low,
    Normal,
}

/// Divergence between GPS and the inertial estimate: divergent when it exceeds 6 m,
/// settled below 2.5 m, in between otherwise (where a raised drift alert is neither renewed nor cleared).
#[derive(Debug, Clone, Copy, PartialEq, Eq, Structural)]
pub enum DriftLevel {
    Divergent,
    Between,
    Settled,
}

/// One sensor reading as the engine sees it.
pub struct SensorObservation {
    pub sensor_name: String,
    /// The reading has a valid fix.
    pub valid: bool,
    /// The reading's confidence is below 40%.
    pub degraded: bool,
    /// The confidence in percent, rendered without decimals.
    pub confidence_text: String,
}

/// Everything one evaluation looks at.
pub struct AnomalyObservations {
    /// The simulation time, rendered as `<seconds with two decimals>s`.
    pub timestamp: String,
    pub battery: BatteryLevel,
    /// The battery percentage with one decimal.
    pub battery_text: String,
    pub drift: DriftLevel,
    /// The estimator divergence in metres, with one decimal.
    pub drift_text: String,
    pub sensors: Vec<SensorObservation>,
    pub geofence: GeofenceStatus,
    /// The drone's position, each coordinate with one decimal.
    pub x_text: String,
    pub y_text: String,
    pub collision_detected: bool,
    /// The identifier of the obstacle hit, as `Some("..")` or `None`.
    pub obstacle_id_text: String,
    pub collision_risk: CollisionRiskLevel,
    /// The distance to the nearest obstacle in metres, with one decimal.
    pub nearest_obstacle_text: String,
    pub altitude_exceeded: bool,
    /// The altitude and the ceiling in metres, with one decimal.
    pub altitude_text: String,
    pub ceiling_text: String,
    pub flight_mode: FlightMode,
    /// The battery is short of what a return home needs (3% above the transit estimate)
    /// and home is more than 30 m away.
    pub energy_short: bool,
    /// The distance home in metres, with one decimal.
    pub home_distance_text: String,
    /// The drone sinks faster than 1.2 m/s.
    pub descending_fast: bool,
    /// The vertical speed in m/s, with one decimal.
    pub vertical_speed_text: String,
}

/// One step of an evaluation: raise an alert, or clear every active alert of a type.
pub enum AlertOp {
    Trigger {
        alert_type: String,
        severity: AlertSeverity,
        description: String,
        suggested_action: String,
        related_mission_event: String,
    },
    Clear { alert_type: String },
}

/// An alert operation with its texts as character sequences.
pub enum AlertOpView {
    Trigger {
        alert_type: Seq<char>,
        severity: AlertSeverity,
        description: Seq<char>,
        suggested_action: Seq<char>,
        related_mission_event: Seq<char>,
    },
    Clear { alert_type: Seq<char> },
}

impl View for AlertOp {
    type V = AlertOpView;

    open spec fn view(&self) -> AlertOpView {
        match self {
            AlertOp::Trigger {
                alert_type,
                severity,
                description,
                suggested_action,
                related_mission_event,
            } => AlertOpView::Trigger {
                alert_type: alert_type@,
                severity: *severity,
                description: description@,
                suggested_action: suggested_action@,
                related_mission_event: related_mission_event@,
            },
            AlertOp::Clear { alert_type } => AlertOpView::Clear { alert_type: alert_type@ },
        }
    }
}

/// The views of a list of operations.
pub open spec fn ops_view(s: Seq<AlertOp>) -> Seq<AlertOpView> {
    s.map_values(|op: AlertOp| op@)
}

/// A raise operation.
pub open spec fn raise(
    alert_type: Seq<char>,
    severity: AlertSeverity,
    description: Seq<char>,
    suggested_action: Seq<char>,
    related_mission_event: Seq<char>,
) -> AlertOpView {
    AlertOpView::Trigger { alert_type, severity, description, suggested_action, related_mission_event }
}

/// A clear operation.
pub open spec fn clear(alert_type: Seq<char>) -> AlertOpView {
    AlertOpView::Clear { alert_type }
}

/// Battery rules.
pub open spec fn battery_ops(o: AnomalyObservations) -> Seq<AlertOpView> {
    match o.battery {
        BatteryLevel::Critical => seq![
            raise(
                "LOW_BATTERY_CRITICAL"@,
                AlertSeverity::Critical,
                "Battery critically depleted ("@ + o.battery_text@ + "%). Emergency landing imminent."@,
                "Execute emergency landing immediately or initiate direct RTH."@,
                "BATTERY_CRITICAL"@,
            ),
        ],
        BatteryLevel::Low => seq![
            raise(
                "LOW_BATTERY_WARNING"@,
                AlertSeverity::Warning,
                "Battery reserve low ("@ + o.battery_text@ + "%). Plan return to home."@,
                "Abort distant waypoints and command return-to-home."@,
                "BATTERY_LOW"@,
            ),
        ],
        BatteryLevel::Normal => seq![clear("LOW_BATTERY_WARNING"@), clear("LOW_BATTERY_CRITICAL"@)],
    }
}

/// GPS drift rules.
pub open spec fn drift_ops(o: AnomalyObservations) -> Seq<AlertOpView> {
    match o.drift {
        DriftLevel::Divergent => seq![
            raise(
                "GPS_DRIFT_DETECTED"@,
                AlertSeverity::Warning,
                "GPS measurement divergent from inertial estimator by "@ + o.drift_text@ + "m."@,
                "Rely on filtered dead-reckoning estimator; verify satellite geometry."@,
                "SENSOR_DRIFT"@,
            ),
        ],
        DriftLevel::Settled => seq![clear("GPS_DRIFT_DETECTED"@)],
        DriftLevel::Between => seq![],
    }
}

/// The rule for one sensor: a dropout when its fix is invalid, else a degradation warning
/// when its confidence is low.
pub open spec fn sensor_op(r: SensorObservation) -> Seq<AlertOpView> {
    if !r.valid {
        seq![
            raise(
                "DROPOUT_"@ + r.sensor_name@,
                AlertSeverity::Critical,
                "Total signal loss on "@ + r.sensor_name@ + ": Fix invalid."@,
                "Switch flight controller to backup navigation sensors."@,
                "SENSOR_FAILURE"@,
            ),
        ]
    } else if r.degraded {
        seq![
            raise(
                "DEGRADED_"@ + r.sensor_name@,
                AlertSeverity::Warning,
                "Sensor "@ + r.sensor_name@ + " confidence degraded to "@ + r.confidence_text@ + "%."@,
                "Cross-check secondary telemetry for bias or interference."@,
                "SENSOR_DEGRADED"@,
            ),
        ]
    } else {
        seq![]
    }
}

/// Sensor rules, reading by reading.
pub open spec fn sensor_ops(rs: Seq<SensorObservation>) -> Seq<AlertOpView>
    decreases rs.len(),
{
    if rs.len() == 0 {
        seq![]
    } else {
        sensor_ops(rs.drop_last()) + sensor_op(rs.last())
    }
}

/// Geofence rules.
pub open spec fn geofence_ops(o: AnomalyObservations) -> Seq<AlertOpView> {
    match o.geofence {
        GeofenceStatus::Breached => seq![
            raise(
                "GEOFENCE_BREACH"@,
                AlertSeverity::Critical,
                "Airspace boundary breached at ("@ + o.x_text@ + "m, "@ + o.y_text@ + "m)."@,
                "Autonomous fail-safe: Triggering return-to-home or hover stop."@,
                "GEOFENCE_BREACH"@,
            ),
        ],
        GeofenceStatus::WarningBuffer => seq![
            raise(
                "GEOFENCE_WARNING"@,
                AlertSeverity::Warning,
                "Drone within 15m safety buffer of perimeter boundary."@,
                "Alter course inward to maintain safe clearance."@,
                "GEOFENCE_WARNING"@,
            ),
        ],
        GeofenceStatus::Inside => seq![clear("GEOFENCE_WARNING"@), clear("GEOFENCE_BREACH"@)],
    }
}

/// Collision rules: an impact first, else the proximity level.
pub open spec fn collision_ops(o: AnomalyObservations) -> Seq<AlertOpView> {
    if o.collision_detected {
        seq![
            raise(
                "COLLISION_DETECTED"@,
                AlertSeverity::Critical,
                "Impact detected with obstacle ID "@ + o.obstacle_id_text@,
                "Emergency disarm and ground recovery required."@,
                "COLLISION"@,
            ),
        ]
    } else {
        match o.collision_risk {
            CollisionRiskLevel::Critical => seq![
                raise(
                    "COLLISION_RISK_CRITICAL"@,
                    AlertSeverity::Critical,
                    "Obstacle detected within "@ + o.nearest_obstacle_text@ + "m. High collision probability."@,
                    "Halt forward movement immediately; recalculate detour route."@,
                    "COLLISION_AVOIDANCE"@,
                ),
            ],
            CollisionRiskLevel::Caution => seq![
                raise(
                    "COLLISION_RISK_CAUTION"@,
                    AlertSeverity::Warning,
                    "LiDAR proximity warning: Obstacle at "@ + o.nearest_obstacle_text@ + "m."@,
                    "Reduce horizontal velocity and scan lateral clearance."@,
                    "PROXIMITY_CAUTION"@,
                ),
            ],
            CollisionRiskLevel::Clear => seq![
                clear("COLLISION_RISK_CAUTION"@),
                clear("COLLISION_RISK_CRITICAL"@),
            ],
        }
    }
}

/// Altitude ceiling rule.
pub open spec fn altitude_ops(o: AnomalyObservations) -> Seq<AlertOpView> {
    if o.altitude_exceeded {
        seq![
            raise(
                "EXCESSIVE_ALTITUDE"@,
                AlertSeverity::Warning,
                "Current altitude ("@ + o.altitude_text@ + "m) exceeds ceiling limit ("@ + o.ceiling_text@ + "m)."@,
                "Command immediate altitude descent to authorized ceiling."@,
                "AIRSPACE_CEILING"@,
            ),
        ]
    } else {
        seq![clear("EXCESSIVE_ALTITUDE"@)]
    }
}

/// Return-home energy rule, for a drone that is in the air or about to be.
pub open spec fn energy_ops(o: AnomalyObservations) -> Seq<AlertOpView> {
    if o.flight_mode != FlightMode::Landed && o.flight_mode != FlightMode::Disarmed && o.energy_short {
        seq![
            raise(
                "FAILED_RTH_ENERGY_DEFICIT"@,
                AlertSeverity::Critical,
                "Remaining battery ("@ + o.battery_text@ + "%) insufficient for safe RTH transit ("@
                    + o.home_distance_text@ + "m required)."@,
                "Abort RTH; perform controlled field landing at current position."@,
                "ENERGY_DEFICIT"@,
            ),
        ]
    } else {
        seq![]
    }
}

/// Uncommanded descent while hovering.
pub open spec fn hover_ops(o: AnomalyObservations) -> Seq<AlertOpView> {
    if o.flight_mode == FlightMode::Hover && o.descending_fast {
        seq![
            raise(
                "UNEXPECTED_FLIGHT_STATE"@,
                AlertSeverity::Warning,
                "Uncommanded descent detected during hover ("@ + o.vertical_speed_text@ + " m/s)."@,
                "Verify motor thrust output and aerodynamic vortex ring state."@,
                "STABILITY_WARNING"@,
            ),
        ]
    } else {
        seq![]
    }
}

/// All the operations of one evaluation, in the order the rules are checked: battery,
/// GPS drift, sensors, geofence, collision, altitude, return-home energy, hover descent.
pub open spec fn anomaly_ops(o: AnomalyObservations) -> Seq<AlertOpView> {
    battery_ops(o) + drift_ops(o) + sensor_ops(o.sensors@) + geofence_ops(o) + collision_ops(o)
        + altitude_ops(o) + energy_ops(o) + hover_ops(o)
}

/// Applying operations in order to a manager, with the timestamp of the evaluation: the
/// manager after them, and the alerts that were newly raised, in order.
pub open spec fn apply_ops(m: AlertManagerView, ops: Seq<AlertOpView>, timestamp: Seq<char>) -> (
    AlertManagerView,
    Seq<AlertView>,
)
    decreases ops.len(),
{
    if ops.len() == 0 {
        (m, seq![])
    } else {
        let (m1, raised) = apply_ops(m, ops.drop_last(), timestamp);
        match ops.last() {
            AlertOpView::Trigger {
                alert_type,
                severity,
                description,
                suggested_action,
                related_mission_event,
            } => {
                let (m2, a) = trigger_outcome(
                    m1,
                    alert_type,
                    severity,
                    timestamp,
                    description,
                    suggested_action,
                    Some(related_mission_event),
                );
                (
                    m2,
                    match a {
                        Some(x) => raised.push(x),
                        None => raised,
                    },
                )
            },
            AlertOpView::Clear { alert_type } => (clear_outcome(m1, alert_type), raised),
        }
    }
}

proof fn lemma_apply_ops_issued(m: AlertManagerView, ops: Seq<AlertOpView>, timestamp: Seq<char>)
    ensures
        m.issued <= apply_ops(m, ops, timestamp).0.issued <= m.issued + ops.len(),
    decreases ops.len(),
{
    if ops.len() > 0 {
        lemma_apply_ops_issued(m, ops.drop_last(), timestamp);
    }
}

proof fn lemma_sensor_ops_len(rs: Seq<SensorObservation>)
    ensures
        sensor_ops(rs).len() <= rs.len(),
    decreases rs.len(),
{
    if rs.len() > 0 {
        lemma_sensor_ops_len(rs.drop_last());
    }
}

/// The anomaly detection engine.
pub struct AnomalyEngine;

impl AnomalyEngine {
    /// Applies operations in order: each raise goes through
    /// [`AlertManager::trigger_alert`] with the given timestamp, each clear through
    /// [`AlertManager::clear_alert_type`]. Returns the alerts that were newly raised.
    pub fn apply(alert_mgr: &mut AlertManager, ops: &Vec<AlertOp>, timestamp: &str) -> (raised: Vec<Alert>)
        requires
            old(alert_mgr)@.issued + ops.len() < usize::MAX,
        ensures
            (final(alert_mgr)@, alerts_view(raised@)) == apply_ops(old(alert_mgr)@, ops_view(ops@), timestamp@),
    {
        let mut raised: Vec<Alert> = Vec::new();
        let mut i: usize = 0;
        proof {
            assert(ops_view(ops@).take(0) =~= Seq::<AlertOpView>::empty());
            assert(alerts_view(raised@) =~= Seq::<AlertView>::empty());
        }
        while i < ops.len()
            invariant
                0 <= i <= ops.len(),
                old(alert_mgr)@.issued + ops.len() < usize::MAX,
                (alert_mgr@, alerts_view(raised@)) == apply_ops(
                    old(alert_mgr)@,
                    ops_view(ops@).take(i as int),
                    timestamp@,
                ),
            decreases ops.len() - i,
        {
            let ghost before = ops_view(ops@).take(i as int);
            let ghost old_raised = raised@;
            proof {
                assert(ops_view(ops@).take(i + 1).drop_last() =~= before);
                assert(ops_view(ops@).take(i + 1).last() == ops@[i as int]@);
                lemma_apply_ops_issued(old(alert_mgr)@, before, timestamp@);
            }
            match &ops[i] {
                AlertOp::Trigger {
                    alert_type,
                    severity,
                    description,
                    suggested_action,
                    related_mission_event,
                } => {
                    let r = alert_mgr.trigger_alert(
                        alert_type.as_str(),
                        *severity,
                        timestamp,
                        description.as_str(),
                        suggested_action.as_str(),
                        Some(related_mission_event.clone()),
                    );
                    match r {
                        Some(a) => {
                            raised.push(a);
                            proof {
                                assert(alerts_view(raised@) =~= alerts_view(old_raised).push(
                                    raised@.last()@,
                                ));
                            }
                        },
                        None => {},
                    }
                },
                AlertOp::Clear { alert_type } => {
                    alert_mgr.clear_alert_type(alert_type.as_str());
                },
            }
            i = i + 1;
        }
        proof {
            assert(ops_view(ops@).take(ops.len() as int) =~= ops_view(ops@));
        }
        raised
    }
}

/// `a + b` as one string.
fn text2(a: &str, b: &str) -> (s: String)
    ensures
        s@ == a@ + b@,
{
    let mut s = a.to_string();
    s.append(b);
    s
}

/// `a + b + c` as one string.
fn text3(a: &str, b: &str, c: &str) -> (s: String)
    ensures
        s@ == a@ + b@ + c@,
{
    let mut s = a.to_string();
    s.append(b);
    s.append(c);
    s
}

/// `a + b + c + d + e` as one string.
fn text5(a: &str, b: &str, c: &str, d: &str, e: &str) -> (s: String)
    ensures
        s@ == a@ + b@ + c@ + d@ + e@,
{
    let mut s = a.to_string();
    s.append(b);
    s.append(c);
    s.append(d);
    s.append(e);
    s
}

fn raise_op(
    alert_type: String,
    severity: AlertSeverity,
    description: String,
    suggested_action: &str,
    related_mission_event: &str,
) -> (op: AlertOp)
    ensures
        op@ == raise(alert_type@, severity, description@, suggested_action@, related_mission_event@),
{
    AlertOp::Trigger {
        alert_type,
        severity,
        description,
        suggested_action: suggested_action.to_string(),
        related_mission_event: related_mission_event.to_string(),
    }
}

fn clear_op(alert_type: &str) -> (op: AlertOp)
    ensures
        op@ == clear(alert_type@),
{
    AlertOp::Clear { alert_type: alert_type.to_string() }
}

/// A list of one operation.
fn one(op: AlertOp) -> (v: Vec<AlertOp>)
    ensures
        ops_view(v@) == seq![op@],
{
    let ghost x = op@;
    let v = vec![op];
    assert(ops_view(v@) =~= seq![x]);
    v
}

/// A list of two operations.
fn two(a: AlertOp, b: AlertOp) -> (v: Vec<AlertOp>)
    ensures
        ops_view(v@) == seq![a@, b@],
{
    let ghost x = a@;
    let ghost y = b@;
    let v = vec![a, b];
    assert(ops_view(v@) =~= seq![x, y]);
    v
}

/// Appends `more` to `ops`.
fn extend(ops: &mut Vec<AlertOp>, more: Vec<AlertOp>)
    ensures
        ops_view(final(ops)@) == ops_view(old(ops)@) + ops_view(more@),
{
    let mut more = more;
    let ghost m = more@;
    ops.append(&mut more);
    assert(ops_view(ops@) =~= ops_view(old(ops)@) + ops_view(m));
}

fn battery_plan(o: &AnomalyObservations) -> (v: Vec<AlertOp>)
    ensures
        ops_view(v@) == battery_ops(*o),
{
    match o.battery {
        BatteryLevel::Critical => one(
            raise_op(
                "LOW_BATTERY_CRITICAL".to_string(),
                AlertSeverity::Critical,
                text3("Battery critically depleted (", o.battery_text.as_str(), "%). Emergency landing imminent."),
                "Execute emergency landing immediately or initiate direct RTH.",
                "BATTERY_CRITICAL",
            ),
        ),
        BatteryLevel::Low => one(
            raise_op(
                "LOW_BATTERY_WARNING".to_string(),
                AlertSeverity::Warning,
                text3("Battery reserve low (", o.battery_text.as_str(), "%). Plan return to home."),
                "Abort distant waypoints and command return-to-home.",
                "BATTERY_LOW",
            ),
        ),
        BatteryLevel::Normal => two(clear_op("LOW_BATTERY_WARNING"), clear_op("LOW_BATTERY_CRITICAL")),
    }
}

fn drift_plan(o: &AnomalyObservations) -> (v: Vec<AlertOp>)
    ensures
        ops_view(v@) == drift_ops(*o),
{
    match o.drift {
        DriftLevel::Divergent => one(
            raise_op(
                "GPS_DRIFT_DETECTED".to_string(),
                AlertSeverity::Warning,
                text3("GPS measurement divergent from inertial estimator by ", o.drift_text.as_str(), "m."),
                "Rely on filtered dead-reckoning estimator; verify satellite geometry.",
                "SENSOR_DRIFT",
            ),
        ),
        DriftLevel::Settled => one(clear_op("GPS_DRIFT_DETECTED")),
        DriftLevel::Between => {
            let v: Vec<AlertOp> = Vec::new();
            assert(ops_view(v@) =~= Seq::<AlertOpView>::empty());
            v
        },
    }
}

fn sensor_plan(rs: &Vec<SensorObservation>) -> (v: Vec<AlertOp>)
    ensures
        ops_view(v@) == sensor_ops(rs@),
{
    let mut v: Vec<AlertOp> = Vec::new();
    let mut i: usize = 0;
    proof {
        assert(rs@.take(0) =~= Seq::<SensorObservation>::empty());
        assert(ops_view(v@) =~= Seq::<AlertOpView>::empty());
    }
    while i < rs.len()
        invariant
            0 <= i <= rs.len(),
            ops_view(v@) == sensor_ops(rs@.take(i as int)),
        decreases rs.len() - i,
    {
        let r = &rs[i];
        proof {
            assert(rs@.take(i + 1).drop_last() =~= rs@.take(i as int));
            assert(rs@.take(i + 1).last() == rs@[i as int]);
        }
        if !r.valid {
            let name = r.sensor_name.as_str();
            extend(
                &mut v,
                one(
                    raise_op(
                        text2("DROPOUT_", name),
                        AlertSeverity::Critical,
                        text3("Total signal loss on ", name, ": Fix invalid."),
                        "Switch flight controller to backup navigation sensors.",
                        "SENSOR_FAILURE",
                    ),
                ),
            );
        } else if r.degraded {
            let name = r.sensor_name.as_str();
            extend(
                &mut v,
                one(
                    raise_op(
                        text2("DEGRADED_", name),
                        AlertSeverity::Warning,
                        text5("Sensor ", name, " confidence degraded to ", r.confidence_text.as_str(), "%."),
                        "Cross-check secondary telemetry for bias or interference.",
                        "SENSOR_DEGRADED",
                    ),
                ),
            );
        } else {
            proof {
                assert(sensor_ops(rs@.take(i + 1)) =~= sensor_ops(rs@.take(i as int)));
            }
        }
        i = i + 1;
    }
    proof {
        assert(rs@.take(rs.len() as int) =~= rs@);
    }
    v
}

fn geofence_plan(o: &AnomalyObservations) -> (v: Vec<AlertOp>)
    ensures
        ops_view(v@) == geofence_ops(*o),
{
    match o.geofence {
        GeofenceStatus::Breached => one(
            raise_op(
                "GEOFENCE_BREACH".to_string(),
                AlertSeverity::Critical,
                text5("Airspace boundary breached at (", o.x_text.as_str(), "m, ", o.y_text.as_str(), "m)."),
                "Autonomous fail-safe: Triggering return-to-home or hover stop.",
                "GEOFENCE_BREACH",
            ),
        ),
        GeofenceStatus::WarningBuffer => one(
            raise_op(
                "GEOFENCE_WARNING".to_string(),
                AlertSeverity::Warning,
                "Drone within 15m safety buffer of perimeter boundary.".to_string(),
                "Alter course inward to maintain safe clearance.",
                "GEOFENCE_WARNING",
            ),
        ),
        GeofenceStatus::Inside => two(clear_op("GEOFENCE_WARNING"), clear_op("GEOFENCE_BREACH")),
    }
}

fn collision_plan(o: &AnomalyObservations) -> (v: Vec<AlertOp>)
    ensures
        ops_view(v@) == collision_ops(*o),
{
    if o.collision_detected {
        one(
            raise_op(
                "COLLISION_DETECTED".to_string(),
                AlertSeverity::Critical,
                text2("Impact detected with obstacle ID ", o.obstacle_id_text.as_str()),
                "Emergency disarm and ground recovery required.",
                "COLLISION",
            ),
        )
    } else {
        match o.collision_risk {
            CollisionRiskLevel::Critical => one(
                raise_op(
                    "COLLISION_RISK_CRITICAL".to_string(),
                    AlertSeverity::Critical,
                    text3(
                        "Obstacle detected within ",
                        o.nearest_obstacle_text.as_str(),
                        "m. High collision probability.",
                    ),
                    "Halt forward movement immediately; recalculate detour route.",
                    "COLLISION_AVOIDANCE",
                ),
            ),
            CollisionRiskLevel::Caution => one(
                raise_op(
                    "COLLISION_RISK_CAUTION".to_string(),
                    AlertSeverity::Warning,
                    text3("LiDAR proximity warning: Obstacle at ", o.nearest_obstacle_text.as_str(), "m."),
                    "Reduce horizontal velocity and scan lateral clearance.",
                    "PROXIMITY_CAUTION",
                ),
            ),
            CollisionRiskLevel::Clear => two(
                clear_op("COLLISION_RISK_CAUTION"),
                clear_op("COLLISION_RISK_CRITICAL"),
            ),
        }
    }
}

fn altitude_plan(o: &AnomalyObservations) -> (v: Vec<AlertOp>)
    ensures
        ops_view(v@) == altitude_ops(*o),
{
    if o.altitude_exceeded {
        one(
            raise_op(
                "EXCESSIVE_ALTITUDE".to_string(),
                AlertSeverity::Warning,
                text5(
                    "Current altitude (",
                    o.altitude_text.as_str(),
                    "m) exceeds ceiling limit (",
                    o.ceiling_text.as_str(),
                    "m).",
                ),
                "Command immediate altitude descent to authorized ceiling.",
                "AIRSPACE_CEILING",
            ),
        )
    } else {
        one(clear_op("EXCESSIVE_ALTITUDE"))
    }
}

fn energy_plan(o: &AnomalyObservations) -> (v: Vec<AlertOp>)
    ensures
        ops_view(v@) == energy_ops(*o),
{
    if o.flight_mode != FlightMode::Landed && o.flight_mode != FlightMode::Disarmed && o.energy_short {
        one(
            raise_op(
                "FAILED_RTH_ENERGY_DEFICIT".to_string(),
                AlertSeverity::Critical,
                text5(
                    "Remaining battery (",
                    o.battery_text.as_str(),
                    "%) insufficient for safe RTH transit (",
                    o.home_distance_text.as_str(),
                    "m required).",
                ),
                "Abort RTH; perform controlled field landing at current position.",
                "ENERGY_DEFICIT",
            ),
        )
    } else {
        let v: Vec<AlertOp> = Vec::new();
        assert(ops_view(v@) =~= Seq::<AlertOpView>::empty());
        v
    }
}

fn hover_plan(o: &AnomalyObservations) -> (v: Vec<AlertOp>)
    ensures
        ops_view(v@) == hover_ops(*o),
{
    if o.flight_mode == FlightMode::Hover && o.descending_fast {
        one(
            raise_op(
                "UNEXPECTED_FLIGHT_STATE".to_string(),
                AlertSeverity::Warning,
                text3("Uncommanded descent detected during hover (", o.vertical_speed_text.as_str(), " m/s)."),
                "Verify motor thrust output and aerodynamic vortex ring state.",
                "STABILITY_WARNING",
            ),
        )
    } else {
        let v: Vec<AlertOp> = Vec::new();
        assert(ops_view(v@) =~= Seq::<AlertOpView>::empty());
        v
    }
}

impl AnomalyEngine {
    /// The alert operations one evaluation performs, in order (see [`anomaly_ops`]).
    pub fn plan(o: &AnomalyObservations) -> (ops: Vec<AlertOp>)
        ensures
            ops_view(ops@) == anomaly_ops(*o),
    {
        let mut ops = battery_plan(o);
        extend(&mut ops, drift_plan(o));
        extend(&mut ops, sensor_plan(&o.sensors));
        extend(&mut ops, geofence_plan(o));
        extend(&mut ops, collision_plan(o));
        extend(&mut ops, altitude_plan(o));
        extend(&mut ops, energy_plan(o));
        extend(&mut ops, hover_plan(o));
        ops
    }

    /// Evaluates the anomaly rules on one tick's observations: raises the alerts whose
    /// conditions hold (unless one of the type is already active) and clears those whose
    /// conditions are gone. Returns the alerts newly raised, in rule order.
    pub fn evaluate(alert_mgr: &mut AlertManager, o: &AnomalyObservations) -> (raised: Vec<Alert>)
        requires
            old(alert_mgr)@.issued + o.sensors.len() + 10 < usize::MAX,
        ensures
            (final(alert_mgr)@, alerts_view(raised@)) == apply_ops(old(alert_mgr)@, anomaly_ops(*o), o.timestamp@),
    {
        let ops = Self::plan(o);
        proof {
            lemma_sensor_ops_len(o.sensors@);
            assert(ops@.len() == ops_view(ops@).len());
        }
        Self::apply(alert_mgr, &ops, o.timestamp.as_str())
    }
}

/// The alert type an operation raises or clears.
pub open spec fn op_type(op: AlertOpView) -> Seq<char> {
    match op {
        AlertOpView::Trigger { alert_type, .. } => alert_type,
        AlertOpView::Clear { alert_type } => alert_type,
    }
}

/// No operation of `ops` is about the alert type `t`.
pub open spec fn avoids(ops: Seq<AlertOpView>, t: Seq<char>) -> bool {
    forall|i: int| 0 <= i < ops.len() ==> op_type(#[trigger] ops[i]) != t
}

/// Every operation of `ops` is about a type that starts with the letters `a`, `b`.
spec fn all_tagged(ops: Seq<AlertOpView>, a: char, b: char) -> bool {
    forall|i: int|
        0 <= i < ops.len() ==> op_type(#[trigger] ops[i]).len() >= 2 && op_type(ops[i])[0] == a
            && op_type(ops[i])[1] == b
}

/// Applying two lists of operations one after the other is applying their concatenation.
proof fn lemma_apply_append(m: AlertManagerView, a: Seq<AlertOpView>, b: Seq<AlertOpView>, ts: Seq<char>)
    ensures
        apply_ops(m, a + b, ts) == ({
            let (m1, r1) = apply_ops(m, a, ts);
            let (m2, r2) = apply_ops(m1, b, ts);
            (m2, r1 + r2)
        }),
    decreases b.len(),
{
    let (m1, r1) = apply_ops(m, a, ts);
    if b.len() == 0 {
        assert(a + b =~= a);
        assert(r1 + Seq::<AlertView>::empty() =~= r1);
    } else {
        assert((a + b).drop_last() =~= a + b.drop_last());
        assert((a + b).last() == b.last());
        lemma_apply_append(m, a, b.drop_last(), ts);
        let (m2, r2) = apply_ops(m1, b.drop_last(), ts);
        match b.last() {
            AlertOpView::Trigger { alert_type, severity, description, suggested_action, related_mission_event } => {
                let (m3, x) = trigger_outcome(
                    m2,
                    alert_type,
                    severity,
                    ts,
                    description,
                    suggested_action,
                    Some(related_mission_event),
                );
                if x is Some {
                    assert((r1 + r2).push(x->0) =~= r1 + r2.push(x->0));
                }
            },
            AlertOpView::Clear { .. } => {},
        }
    }
}

/// Adding an alert of another type does not change whether a type is present.
proof fn lemma_push_other_type(s: Seq<AlertView>, a: AlertView, t: Seq<char>)
    requires
        a.alert_type != t,
    ensures
        has_alert_type(s.push(a), t) == has_alert_type(s, t),
{
    if has_alert_type(s, t) {
        let i = choose|i: int| 0 <= i < s.len() && #[trigger] s[i].alert_type == t;
        assert(s.push(a)[i].alert_type == t);
    }
    if has_alert_type(s.push(a), t) {
        let i = choose|i: int| 0 <= i < s.push(a).len() && #[trigger] s.push(a)[i].alert_type == t;
        assert(s[i].alert_type == t);
    }
}

/// Operations about other types leave the presence of an alert type as it was.
proof fn lemma_untouched(m: AlertManagerView, ops: Seq<AlertOpView>, t: Seq<char>, ts: Seq<char>)
    requires
        avoids(ops, t),
    ensures
        has_alert_type(apply_ops(m, ops, ts).0.active, t) == has_alert_type(m.active, t),
    decreases ops.len(),
{
    if ops.len() > 0 {
        let rest = ops.drop_last();
        assert(avoids(rest, t)) by {
            assert forall|i: int| 0 <= i < rest.len() implies op_type(#[trigger] rest[i]) != t by {
                assert(rest[i] == ops[i]);
            }
        }
        lemma_untouched(m, rest, t, ts);
        let (m1, r1) = apply_ops(m, rest, ts);
        assert(op_type(ops[ops.len() - 1]) != t);
        match ops.last() {
            AlertOpView::Trigger { alert_type, severity, description, suggested_action, related_mission_event } => {
                let (m2, x) = trigger_outcome(
                    m1,
                    alert_type,
                    severity,
                    ts,
                    description,
                    suggested_action,
                    Some(related_mission_event),
                );
                if x is Some {
                    lemma_push_other_type(m1.active, x->0, t);
                }
            },
            AlertOpView::Clear { alert_type } => {
                law_clear_keeps_other_types(m1, alert_type, t);
            },
        }
    }
}

proof fn lemma_tagged_avoids(ops: Seq<AlertOpView>, a: char, b: char, t: Seq<char>)
    requires
        all_tagged(ops, a, b),
        t.len() >= 2,
        t[0] != a || t[1] != b,
    ensures
        avoids(ops, t),
{
    assert forall|i: int| 0 <= i < ops.len() implies op_type(#[trigger] ops[i]) != t by {
        let u = op_type(ops[i]);
        if u == t {
            assert(u[0] == t[0] && u[1] == t[1]);
        }
    }
}

proof fn lemma_avoids_concat(a: Seq<AlertOpView>, b: Seq<AlertOpView>, t: Seq<char>)
    requires
        avoids(a, t),
        avoids(b, t),
    ensures
        avoids(a + b, t),
{
    assert forall|i: int| 0 <= i < (a + b).len() implies op_type(#[trigger] (a + b)[i]) != t by {
        if i < a.len() {
            assert((a + b)[i] == a[i]);
        } else {
            assert((a + b)[i] == b[i - a.len()]);
        }
    }
}

proof fn lemma_sensor_tags(rs: Seq<SensorObservation>)
    ensures
        forall|i: int|
            0 <= i < sensor_ops(rs).len() ==> op_type(#[trigger] sensor_ops(rs)[i]).len() >= 2
                && op_type(sensor_ops(rs)[i])[0] == 'D',
    decreases rs.len(),
{
    reveal_strlit("DROPOUT_");
    reveal_strlit("DEGRADED_");
    if rs.len() > 0 {
        lemma_sensor_tags(rs.drop_last());
        let a = sensor_ops(rs.drop_last());
        let b = sensor_op(rs.last());
        assert forall|i: int| 0 <= i < (a + b).len() implies op_type(#[trigger] (a + b)[i]).len() >= 2
            && op_type((a + b)[i])[0] == 'D' by {
            if i < a.len() {
                assert((a + b)[i] == a[i]);
            } else {
                assert((a + b)[i] == b[i - a.len()]);
            }
        }
    }
}

proof fn lemma_sensor_avoids(rs: Seq<SensorObservation>, t: Seq<char>)
    requires
        t.len() >= 2,
        t[0] != 'D',
    ensures
        avoids(sensor_ops(rs), t),
{
    lemma_sensor_tags(rs);
    assert forall|i: int| 0 <= i < sensor_ops(rs).len() implies op_type(#[trigger] sensor_ops(rs)[i]) != t by {
        let u = op_type(sensor_ops(rs)[i]);
        if u == t {
            assert(u[0] == t[0]);
        }
    }
}

/// The letters each rule's alert types start with.
proof fn lemma_rule_tags(o: AnomalyObservations)
    ensures
        all_tagged(battery_ops(o), 'L', 'O'),
        all_tagged(drift_ops(o), 'G', 'P'),
        all_tagged(geofence_ops(o), 'G', 'E'),
        all_tagged(collision_ops(o), 'C', 'O'),
        all_tagged(altitude_ops(o), 'E', 'X'),
        all_tagged(energy_ops(o), 'F', 'A'),
        all_tagged(hover_ops(o), 'U', 'N'),
{
    reveal_strlit("LOW_BATTERY_CRITICAL");
    reveal_strlit("LOW_BATTERY_WARNING");
    reveal_strlit("GPS_DRIFT_DETECTED");
    reveal_strlit("GEOFENCE_BREACH");
    reveal_strlit("GEOFENCE_WARNING");
    reveal_strlit("COLLISION_DETECTED");
    reveal_strlit("COLLISION_RISK_CRITICAL");
    reveal_strlit("COLLISION_RISK_CAUTION");
    reveal_strlit("EXCESSIVE_ALTITUDE");
    reveal_strlit("FAILED_RTH_ENERGY_DEFICIT");
    reveal_strlit("UNEXPECTED_FLIGHT_STATE");
}

/// The operations of one evaluation, grouped as the rules before a rule, the rule itself,
/// and the rules after it.
proof fn lemma_ops_split(o: AnomalyObservations)
    ensures
        anomaly_ops(o) == battery_ops(o) + (drift_ops(o) + sensor_ops(o.sensors@) + geofence_ops(o)
            + collision_ops(o) + altitude_ops(o) + energy_ops(o) + hover_ops(o)),
        anomaly_ops(o) == (battery_ops(o) + drift_ops(o)) + (sensor_ops(o.sensors@) + geofence_ops(o)
            + collision_ops(o) + altitude_ops(o) + energy_ops(o) + hover_ops(o)),
        anomaly_ops(o) == (battery_ops(o) + drift_ops(o) + sensor_ops(o.sensors@) + geofence_ops(o)) + (
        collision_ops(o) + altitude_ops(o) + energy_ops(o) + hover_ops(o)),
        anomaly_ops(o) == (battery_ops(o) + drift_ops(o) + sensor_ops(o.sensors@) + geofence_ops(o)
            + collision_ops(o)) + (altitude_ops(o) + energy_ops(o) + hover_ops(o)),
        anomaly_ops(o) == (battery_ops(o) + drift_ops(o) + sensor_ops(o.sensors@) + geofence_ops(o)
            + collision_ops(o) + altitude_ops(o)) + (energy_ops(o) + hover_ops(o)),
{
    lemma_regroup(
        battery_ops(o),
        drift_ops(o),
        sensor_ops(o.sensors@),
        geofence_ops(o),
        collision_ops(o),
        altitude_ops(o),
        energy_ops(o),
        hover_ops(o),
    );
}

proof fn lemma_regroup<A>(b: Seq<A>, d: Seq<A>, s: Seq<A>, g: Seq<A>, c: Seq<A>, a: Seq<A>, e: Seq<A>, h: Seq<A>)
    ensures
        b + d + s + g + c + a + e + h == b + (d + s + g + c + a + e + h),
        b + d + s + g + c + a + e + h == (b + d) + (s + g + c + a + e + h),
        b + d + s + g + c + a + e + h == (b + d + s + g) + (c + a + e + h),
        b + d + s + g + c + a + e + h == (b + d + s + g + c) + (a + e + h),
        b + d + s + g + c + a + e + h == (b + d + s + g + c + a) + (e + h),
{
    assert(b + d + s + g + c + a + e + h =~= b + (d + s + g + c + a + e + h));
    assert(b + d + s + g + c + a + e + h =~= (b + d) + (s + g + c + a + e + h));
    assert(b + d + s + g + c + a + e + h =~= (b + d + s + g) + (c + a + e + h));
    assert(b + d + s + g + c + a + e + h =~= (b + d + s + g + c) + (a + e + h));
    assert(b + d + s + g + c + a + e + h =~= (b + d + s + g + c + a) + (e + h));
}

/// The effect of a single raise: its type is then active.
proof fn lemma_single_raise(m: AlertManagerView, op: AlertOpView, ts: Seq<char>)
    requires
        op is Trigger,
    ensures
        has_alert_type(apply_ops(m, seq![op], ts).0.active, op_type(op)),
{
    assert(seq![op].drop_last() =~= Seq::<AlertOpView>::empty());
    assert(apply_ops(m, Seq::<AlertOpView>::empty(), ts) == (m, Seq::<AlertView>::empty()));
    assert(seq![op].last() == op);
    match op {
        AlertOpView::Trigger { alert_type, severity, description, suggested_action, related_mission_event } => {
            law_trigger_makes_type_active(
                m,
                alert_type,
                severity,
                ts,
                description,
                suggested_action,
                Some(related_mission_event),
            );
        },
        AlertOpView::Clear { .. } => {},
    }
}

/// The effect of clearing two different types: neither is then active.
proof fn lemma_double_clear(m: AlertManagerView, t1: Seq<char>, t2: Seq<char>, ts: Seq<char>)
    requires
        t1 != t2,
    ensures
        !has_alert_type(apply_ops(m, seq![clear(t1), clear(t2)], ts).0.active, t1),
        !has_alert_type(apply_ops(m, seq![clear(t1), clear(t2)], ts).0.active, t2),
{
    let ops = seq![clear(t1), clear(t2)];
    assert(ops.drop_last() =~= seq![clear(t1)]);
    assert(ops.last() == clear(t2));
    assert(seq![clear(t1)].drop_last() =~= Seq::<AlertOpView>::empty());
    assert(seq![clear(t1)].last() == clear(t1));
    assert(apply_ops(m, Seq::<AlertOpView>::empty(), ts) == (m, Seq::<AlertView>::empty()));
    let m1 = clear_outcome(m, t1);
    assert(apply_ops(m, seq![clear(t1)], ts).0 == m1);
    law_clear_removes_type(m, t1);
    law_clear_keeps_other_types(m1, t2, t1);
    law_clear_removes_type(m1, t2);
}

/// The effect of clearing one type: it is then not active.
proof fn lemma_single_clear(m: AlertManagerView, t: Seq<char>, ts: Seq<char>)
    ensures
        !has_alert_type(apply_ops(m, seq![clear(t)], ts).0.active, t),
{
    assert(seq![clear(t)].drop_last() =~= Seq::<AlertOpView>::empty());
    assert(seq![clear(t)].last() == clear(t));
    assert(apply_ops(m, Seq::<AlertOpView>::empty(), ts) == (m, Seq::<AlertView>::empty()));
    law_clear_removes_type(m, t);
}

/// Applying operations never lets two active alerts share a type.
pub proof fn law_apply_keeps_types_unique(m: AlertManagerView, ops: Seq<AlertOpView>, ts: Seq<char>)
    requires
        types_unique(m.active),
    ensures
        types_unique(apply_ops(m, ops, ts).0.active),
    decreases ops.len(),
{
    if ops.len() > 0 {
        law_apply_keeps_types_unique(m, ops.drop_last(), ts);
        let (m1, r1) = apply_ops(m, ops.drop_last(), ts);
        match ops.last() {
            AlertOpView::Trigger { alert_type, severity, description, suggested_action, related_mission_event } => {
                law_trigger_keeps_types_unique(
                    m1,
                    alert_type,
                    severity,
                    ts,
                    description,
                    suggested_action,
                    Some(related_mission_event),
                );
            },
            AlertOpView::Clear { alert_type } => {
                if alert_type != seq!['x'] {
                    law_clear_keeps_other_types(m1, alert_type, seq!['x']);
                } else {
                    assert(seq!['x'][0] != seq!['y'][0]);
                    law_clear_keeps_other_types(m1, alert_type, seq!['y']);
                }
            },
        }
    }
}

/// The rules after rule `k` (1 drift, 2 sensors, 3 geofence, 4 collision, 5 altitude, 6 energy,
/// 7 hover: the operations from that rule on) never touch a type whose first letters belong
/// to none of them.
proof fn lemma_later_rules_avoid(o: AnomalyObservations, t: Seq<char>, k: int)
    requires
        t.len() >= 2,
        1 <= k <= 7,
        k <= 1 ==> !(t[0] == 'G' && t[1] == 'P'),
        k <= 2 ==> t[0] != 'D',
        k <= 3 ==> !(t[0] == 'G' && t[1] == 'E'),
        k <= 4 ==> !(t[0] == 'C' && t[1] == 'O'),
        k <= 5 ==> !(t[0] == 'E' && t[1] == 'X'),
        k <= 6 ==> !(t[0] == 'F' && t[1] == 'A'),
        !(t[0] == 'U' && t[1] == 'N'),
    ensures
        k == 1 ==> avoids(
            drift_ops(o) + sensor_ops(o.sensors@) + geofence_ops(o) + collision_ops(o) + altitude_ops(o)
                + energy_ops(o) + hover_ops(o),
            t,
        ),
        k == 2 ==> avoids(
            sensor_ops(o.sensors@) + geofence_ops(o) + collision_ops(o) + altitude_ops(o) + energy_ops(o)
                + hover_ops(o),
            t,
        ),
        k == 3 ==> avoids(
            geofence_ops(o) + collision_ops(o) + altitude_ops(o) + energy_ops(o) + hover_ops(o),
            t,
        ),
        k == 4 ==> avoids(collision_ops(o) + altitude_ops(o) + energy_ops(o) + hover_ops(o), t),
        k == 5 ==> avoids(altitude_ops(o) + energy_ops(o) + hover_ops(o), t),
        k == 6 ==> avoids(energy_ops(o) + hover_ops(o), t),
        k == 7 ==> avoids(hover_ops(o), t),
{
    lemma_rule_tags(o);
    let d = drift_ops(o);
    let sn = sensor_ops(o.sensors@);
    let g = geofence_ops(o);
    let c = collision_ops(o);
    let a = altitude_ops(o);
    let e = energy_ops(o);
    let h = hover_ops(o);
    lemma_tagged_avoids(h, 'U', 'N', t);
    if k <= 6 {
        lemma_tagged_avoids(e, 'F', 'A', t);
    }
    if k <= 5 {
        lemma_tagged_avoids(a, 'E', 'X', t);
    }
    if k <= 4 {
        lemma_tagged_avoids(c, 'C', 'O', t);
    }
    if k <= 3 {
        lemma_tagged_avoids(g, 'G', 'E', t);
    }
    if k <= 2 {
        lemma_sensor_avoids(o.sensors@, t);
    }
    if k <= 1 {
        lemma_tagged_avoids(d, 'G', 'P', t);
    }
    if k == 1 {
        lemma_avoids_concat(d, sn, t);
        lemma_avoids_concat(d + sn, g, t);
        lemma_avoids_concat(d + sn + g, c, t);
        lemma_avoids_concat(d + sn + g + c, a, t);
        lemma_avoids_concat(d + sn + g + c + a, e, t);
        lemma_avoids_concat(d + sn + g + c + a + e, h, t);
    } else if k == 2 {
        lemma_avoids_concat(sn, g, t);
        lemma_avoids_concat(sn + g, c, t);
        lemma_avoids_concat(sn + g + c, a, t);
        lemma_avoids_concat(sn + g + c + a, e, t);
        lemma_avoids_concat(sn + g + c + a + e, h, t);
    } else if k == 3 {
        lemma_avoids_concat(g, c, t);
        lemma_avoids_concat(g + c, a, t);
        lemma_avoids_concat(g + c + a, e, t);
        lemma_avoids_concat(g + c + a + e, h, t);
    } else if k == 4 {
        lemma_avoids_concat(c, a, t);
        lemma_avoids_concat(c + a, e, t);
        lemma_avoids_concat(c + a + e, h, t);
    } else if k == 5 {
        lemma_avoids_concat(a, e, t);
        lemma_avoids_concat(a + e, h, t);
    } else if k == 6 {
        lemma_avoids_concat(e, h, t);
    }
}

/// The battery rule: after an evaluation, a critical band leaves a critical-battery alert
/// active, a low band a low-battery alert, and a normal band neither.
pub proof fn law_battery_rule(m: AlertManagerView, o: AnomalyObservations)
    ensures
        ({
            let r = apply_ops(m, anomaly_ops(o), o.timestamp@).0.active;
            &&& o.battery == BatteryLevel::Critical ==> has_alert_type(r, "LOW_BATTERY_CRITICAL"@)
            &&& o.battery == BatteryLevel::Low ==> has_alert_type(r, "LOW_BATTERY_WARNING"@)
            &&& o.battery == BatteryLevel::Normal ==> !has_alert_type(r, "LOW_BATTERY_WARNING"@)
                && !has_alert_type(r, "LOW_BATTERY_CRITICAL"@)
        }),
{
    let ts = o.timestamp@;
    let w = "LOW_BATTERY_WARNING"@;
    let c = "LOW_BATTERY_CRITICAL"@;
    reveal_strlit("LOW_BATTERY_WARNING");
    reveal_strlit("LOW_BATTERY_CRITICAL");
    let b = battery_ops(o);
    let rest = drift_ops(o) + sensor_ops(o.sensors@) + geofence_ops(o) + collision_ops(o) + altitude_ops(o)
        + energy_ops(o) + hover_ops(o);
    lemma_ops_split(o);
    lemma_apply_append(m, b, rest, ts);
    let m1 = apply_ops(m, b, ts).0;
    lemma_later_rules_avoid(o, w, 1);
    lemma_later_rules_avoid(o, c, 1);
    lemma_untouched(m1, rest, w, ts);
    lemma_untouched(m1, rest, c, ts);
    match o.battery {
        BatteryLevel::Critical => lemma_single_raise(m, b[0], ts),
        BatteryLevel::Low => lemma_single_raise(m, b[0], ts),
        BatteryLevel::Normal => {
            assert(w[12] != c[12]);
            lemma_double_clear(m, w, c, ts);
        },
    }
}

/// The GPS drift rule: after an evaluation, a divergent estimate leaves a drift alert
/// active, and a settled one leaves none.
pub proof fn law_drift_rule(m: AlertManagerView, o: AnomalyObservations)
    ensures
        ({
            let r = apply_ops(m, anomaly_ops(o), o.timestamp@).0.active;
            &&& o.drift == DriftLevel::Divergent ==> has_alert_type(r, "GPS_DRIFT_DETECTED"@)
            &&& o.drift == DriftLevel::Settled ==> !has_alert_type(r, "GPS_DRIFT_DETECTED"@)
        }),
{
    let ts = o.timestamp@;
    let t = "GPS_DRIFT_DETECTED"@;
    reveal_strlit("GPS_DRIFT_DETECTED");
    let b = battery_ops(o);
    let d = drift_ops(o);
    let rest = sensor_ops(o.sensors@) + geofence_ops(o) + collision_ops(o) + altitude_ops(o)
        + energy_ops(o) + hover_ops(o);
    lemma_ops_split(o);
    lemma_apply_append(m, b + d, rest, ts);
    lemma_apply_append(m, b, d, ts);
    let m1 = apply_ops(m, b, ts).0;
    let m2 = apply_ops(m, b + d, ts).0;
    lemma_later_rules_avoid(o, t, 2);
    lemma_untouched(m2, rest, t, ts);
    match o.drift {
        DriftLevel::Divergent => lemma_single_raise(m1, d[0], ts),
        DriftLevel::Settled => lemma_single_clear(m1, t, ts),
        DriftLevel::Between => {},
    }
}

/// The geofence rule: after an evaluation, a breach leaves a breach alert active, the
/// warning buffer a warning alert, and being inside neither.
pub proof fn law_geofence_rule(m: AlertManagerView, o: AnomalyObservations)
    ensures
        ({
            let r = apply_ops(m, anomaly_ops(o), o.timestamp@).0.active;
            &&& o.geofence == GeofenceStatus::Breached ==> has_alert_type(r, "GEOFENCE_BREACH"@)
            &&& o.geofence == GeofenceStatus::WarningBuffer ==> has_alert_type(r, "GEOFENCE_WARNING"@)
            &&& o.geofence == GeofenceStatus::Inside ==> !has_alert_type(r, "GEOFENCE_WARNING"@)
                && !has_alert_type(r, "GEOFENCE_BREACH"@)
        }),
{
    let ts = o.timestamp@;
    let w = "GEOFENCE_WARNING"@;
    let br = "GEOFENCE_BREACH"@;
    reveal_strlit("GEOFENCE_WARNING");
    reveal_strlit("GEOFENCE_BREACH");
    let pre = battery_ops(o) + drift_ops(o) + sensor_ops(o.sensors@);
    let g = geofence_ops(o);
    let rest = collision_ops(o) + altitude_ops(o) + energy_ops(o) + hover_ops(o);
    lemma_ops_split(o);
    lemma_apply_append(m, pre + g, rest, ts);
    lemma_apply_append(m, pre, g, ts);
    let m1 = apply_ops(m, pre, ts).0;
    let m2 = apply_ops(m, pre + g, ts).0;
    lemma_later_rules_avoid(o, w, 4);
    lemma_later_rules_avoid(o, br, 4);
    lemma_untouched(m2, rest, w, ts);
    lemma_untouched(m2, rest, br, ts);
    match o.geofence {
        GeofenceStatus::Breached => lemma_single_raise(m1, g[0], ts),
        GeofenceStatus::WarningBuffer => lemma_single_raise(m1, g[0], ts),
        GeofenceStatus::Inside => {
            assert(w[9] != br[9]);
            lemma_double_clear(m1, w, br, ts);
        },
    }
}

/// The collision rule: after an evaluation, an impact leaves a collision alert active;
/// without one, critical proximity leaves a critical-risk alert, caution a caution alert,
/// and a clear surrounding neither risk alert.
pub proof fn law_collision_rule(m: AlertManagerView, o: AnomalyObservations)
    ensures
        ({
            let r = apply_ops(m, anomaly_ops(o), o.timestamp@).0.active;
            &&& o.collision_detected ==> has_alert_type(r, "COLLISION_DETECTED"@)
            &&& !o.collision_detected && o.collision_risk == CollisionRiskLevel::Critical
                ==> has_alert_type(r, "COLLISION_RISK_CRITICAL"@)
            &&& !o.collision_detected && o.collision_risk == CollisionRiskLevel::Caution
                ==> has_alert_type(r, "COLLISION_RISK_CAUTION"@)
            &&& !o.collision_detected && o.collision_risk == CollisionRiskLevel::Clear
                ==> !has_alert_type(r, "COLLISION_RISK_CAUTION"@) && !has_alert_type(
                r,
                "COLLISION_RISK_CRITICAL"@,
            )
        }),
{
    let ts = o.timestamp@;
    let d = "COLLISION_DETECTED"@;
    let ca = "COLLISION_RISK_CAUTION"@;
    let cr = "COLLISION_RISK_CRITICAL"@;
    reveal_strlit("COLLISION_DETECTED");
    reveal_strlit("COLLISION_RISK_CAUTION");
    reveal_strlit("COLLISION_RISK_CRITICAL");
    let pre = battery_ops(o) + drift_ops(o) + sensor_ops(o.sensors@) + geofence_ops(o);
    let c = collision_ops(o);
    let rest = altitude_ops(o) + energy_ops(o) + hover_ops(o);
    lemma_ops_split(o);
    lemma_apply_append(m, pre + c, rest, ts);
    lemma_apply_append(m, pre, c, ts);
    let m1 = apply_ops(m, pre, ts).0;
    let m2 = apply_ops(m, pre + c, ts).0;
    lemma_later_rules_avoid(o, d, 5);
    lemma_later_rules_avoid(o, ca, 5);
    lemma_later_rules_avoid(o, cr, 5);
    lemma_untouched(m2, rest, d, ts);
    lemma_untouched(m2, rest, ca, ts);
    lemma_untouched(m2, rest, cr, ts);
    if o.collision_detected {
        lemma_single_raise(m1, c[0], ts);
    } else {
        match o.collision_risk {
            CollisionRiskLevel::Critical => lemma_single_raise(m1, c[0], ts),
            CollisionRiskLevel::Caution => lemma_single_raise(m1, c[0], ts),
            CollisionRiskLevel::Clear => {
                assert(ca[16] != cr[16]);
                lemma_double_clear(m1, ca, cr, ts);
            },
        }
    }
}

/// The altitude rule: after an evaluation an excessive-altitude alert is active exactly
/// when the ceiling is exceeded.
pub proof fn law_altitude_rule(m: AlertManagerView, o: AnomalyObservations)
    ensures
        has_alert_type(apply_ops(m, anomaly_ops(o), o.timestamp@).0.active, "EXCESSIVE_ALTITUDE"@)
            == o.altitude_exceeded,
{
    let ts = o.timestamp@;
    let t = "EXCESSIVE_ALTITUDE"@;
    reveal_strlit("EXCESSIVE_ALTITUDE");
    let pre = battery_ops(o) + drift_ops(o) + sensor_ops(o.sensors@) + geofence_ops(o) + collision_ops(o);
    let a = altitude_ops(o);
    let rest = energy_ops(o) + hover_ops(o);
    lemma_ops_split(o);
    lemma_apply_append(m, pre + a, rest, ts);
    lemma_apply_append(m, pre, a, ts);
    let m1 = apply_ops(m, pre, ts).0;
    let m2 = apply_ops(m, pre + a, ts).0;
    lemma_later_rules_avoid(o, t, 6);
    lemma_untouched(m2, rest, t, ts);
    if o.altitude_exceeded {
        lemma_single_raise(m1, a[0], ts);
    } else {
        lemma_single_clear(m1, t, ts);
    }
}

/// The return-home energy rule: after an evaluation in which a drone off the ground lacks
/// the energy to return home, an energy-deficit alert is active.
pub proof fn law_energy_rule(m: AlertManagerView, o: AnomalyObservations)
    requires
        o.flight_mode != FlightMode::Landed,
        o.flight_mode != FlightMode::Disarmed,
        o.energy_short,
    ensures
        has_alert_type(apply_ops(m, anomaly_ops(o), o.timestamp@).0.active, "FAILED_RTH_ENERGY_DEFICIT"@),
{
    let ts = o.timestamp@;
    let t = "FAILED_RTH_ENERGY_DEFICIT"@;
    reveal_strlit("FAILED_RTH_ENERGY_DEFICIT");
    let pre = battery_ops(o) + drift_ops(o) + sensor_ops(o.sensors@) + geofence_ops(o) + collision_ops(o)
        + altitude_ops(o);
    let e = energy_ops(o);
    let h = hover_ops(o);
    lemma_ops_split(o);
    assert(pre + (e + h) =~= (pre + e) + h);
    lemma_apply_append(m, pre + e, h, ts);
    lemma_apply_append(m, pre, e, ts);
    let m1 = apply_ops(m, pre, ts).0;
    let m2 = apply_ops(m, pre + e, ts).0;
    lemma_later_rules_avoid(o, t, 7);
    lemma_untouched(m2, h, t, ts);
    lemma_single_raise(m1, e[0], ts);
}

/// The hover rule: after an evaluation in which a hovering drone sinks fast, an
/// unexpected-flight-state alert is active.
pub proof fn law_hover_rule(m: AlertManagerView, o: AnomalyObservations)
    requires
        o.flight_mode == FlightMode::Hover,
        o.descending_fast,
    ensures
        has_alert_type(apply_ops(m, anomaly_ops(o), o.timestamp@).0.active, "UNEXPECTED_FLIGHT_STATE"@),
{
    let ts = o.timestamp@;
    let pre = battery_ops(o) + drift_ops(o) + sensor_ops(o.sensors@) + geofence_ops(o) + collision_ops(o)
        + altitude_ops(o) + energy_ops(o);
    let h = hover_ops(o);
    assert(anomaly_ops(o) == pre + h);
    lemma_apply_append(m, pre, h, ts);
    reveal_strlit("UNEXPECTED_FLIGHT_STATE");
    lemma_single_raise(apply_ops(m, pre, ts).0, h[0], ts);
}

/// The alerts an application of operations reports as raised are exactly those it adds to
/// the history, in order; the manager's count of issued alerts grows by their number.
pub proof fn law_raised_join_history(m: AlertManagerView, ops: Seq<AlertOpView>, ts: Seq<char>)
    ensures
        apply_ops(m, ops, ts).0.history == m.history + apply_ops(m, ops, ts).1,
        apply_ops(m, ops, ts).0.issued == m.issued + apply_ops(m, ops, ts).1.len(),
    decreases ops.len(),
{
    if ops.len() == 0 {
        assert(m.history + Seq::<AlertView>::empty() =~= m.history);
    } else {
        law_raised_join_history(m, ops.drop_last(), ts);
        let (m1, r1) = apply_ops(m, ops.drop_last(), ts);
        match ops.last() {
            AlertOpView::Trigger { alert_type, severity, description, suggested_action, related_mission_event } => {
                let (m2, x) = trigger_outcome(
                    m1,
                    alert_type,
                    severity,
                    ts,
                    description,
                    suggested_action,
                    Some(related_mission_event),
                );
                if x is Some {
                    assert(m.history + r1.push(x->0) =~= (m.history + r1).push(x->0));
                }
            },
            AlertOpView::Clear { .. } => {},
        }
    }
}


/// No alert type is both raised and cleared by `ops`.
pub open spec fn raises_apart_from_clears(ops: Seq<AlertOpView>) -> bool {
    forall|i: int, j: int|
        0 <= i < ops.len() && 0 <= j < ops.len() && ops[i] is Trigger && !(ops[j] is Trigger)
            ==> op_type(#[trigger] ops[i]) != op_type(#[trigger] ops[j])
}

/// `m` already reflects `ops`: every type they raise is active, and no type they clear is.
pub open spec fn settled(m: AlertManagerView, ops: Seq<AlertOpView>) -> bool {
    forall|i: int|
        0 <= i < ops.len() ==> if ops[i] is Trigger {
            has_alert_type(m.active, op_type(#[trigger] ops[i]))
        } else {
            !has_alert_type(m.active, op_type(ops[i]))
        }
}

/// Adding an alert keeps every type that was present.
proof fn lemma_push_keeps_type(s: Seq<AlertView>, a: AlertView, t: Seq<char>)
    requires
        has_alert_type(s, t),
    ensures
        has_alert_type(s.push(a), t),
{
    let i = choose|i: int| 0 <= i < s.len() && #[trigger] s[i].alert_type == t;
    assert(s.push(a)[i].alert_type == t);
}

/// Clearing a type that no alert has keeps the list as it is.
proof fn lemma_clear_absent(s: Seq<AlertView>, t: Seq<char>)
    requires
        !has_alert_type(s, t),
    ensures
        super::alerts::without_type(s, t) == s,
    decreases s.len(),
{
    reveal(Seq::filter);
    if s.len() > 0 {
        let r = s.drop_last();
        assert(!has_alert_type(r, t)) by {
            if has_alert_type(r, t) {
                let i = choose|i: int| 0 <= i < r.len() && #[trigger] r[i].alert_type == t;
                assert(s[i] == r[i]);
            }
        }
        lemma_clear_absent(r, t);
        assert(s[s.len() - 1].alert_type != t);
        assert(r.push(s.last()) =~= s);
    }
}

/// Applying operations that keep raises apart from clears leaves the manager settled.
proof fn lemma_apply_settles(m: AlertManagerView, ops: Seq<AlertOpView>, ts: Seq<char>)
    requires
        raises_apart_from_clears(ops),
    ensures
        settled(apply_ops(m, ops, ts).0, ops),
    decreases ops.len(),
{
    if ops.len() > 0 {
        let rest = ops.drop_last();
        let n = rest.len() as int;
        assert(raises_apart_from_clears(rest)) by {
            assert forall|i: int, j: int|
                0 <= i < rest.len() && 0 <= j < rest.len() && rest[i] is Trigger && !(rest[j] is Trigger)
                    implies op_type(#[trigger] rest[i]) != op_type(#[trigger] rest[j]) by {
                assert(rest[i] == ops[i] && rest[j] == ops[j]);
            }
        }
        lemma_apply_settles(m, rest, ts);
        let (m1, r1) = apply_ops(m, rest, ts);
        assert(ops[n] == ops.last());
        match ops.last() {
            AlertOpView::Trigger { alert_type, severity, description, suggested_action, related_mission_event } => {
                let (m2, x) = trigger_outcome(
                    m1,
                    alert_type,
                    severity,
                    ts,
                    description,
                    suggested_action,
                    Some(related_mission_event),
                );
                law_trigger_makes_type_active(
                    m1,
                    alert_type,
                    severity,
                    ts,
                    description,
                    suggested_action,
                    Some(related_mission_event),
                );
                assert forall|i: int| 0 <= i < ops.len() implies if ops[i] is Trigger {
                    has_alert_type(m2.active, op_type(#[trigger] ops[i]))
                } else {
                    !has_alert_type(m2.active, op_type(ops[i]))
                } by {
                    if i < n {
                        assert(ops[i] == rest[i]);
                        let u = op_type(ops[i]);
                        if x is Some {
                            if ops[i] is Trigger {
                                lemma_push_keeps_type(m1.active, x->0, u);
                            } else {
                                assert(op_type(ops[n]) != op_type(ops[i]));
                                lemma_push_other_type(m1.active, x->0, u);
                            }
                        }
                    }
                }
            },
            AlertOpView::Clear { alert_type } => {
                let m2 = clear_outcome(m1, alert_type);
                law_clear_removes_type(m1, alert_type);
                assert forall|i: int| 0 <= i < ops.len() implies if ops[i] is Trigger {
                    has_alert_type(m2.active, op_type(#[trigger] ops[i]))
                } else {
                    !has_alert_type(m2.active, op_type(ops[i]))
                } by {
                    if i < n {
                        assert(ops[i] == rest[i]);
                        let u = op_type(ops[i]);
                        if ops[i] is Trigger {
                            assert(op_type(ops[i]) != op_type(ops[n]));
                        }
                        if u != alert_type {
                            law_clear_keeps_other_types(m1, alert_type, u);
                        }
                    }
                }
            },
        }
    }
}

/// Operations applied to a manager they already settle change nothing and raise nothing.
proof fn lemma_settled_unchanged(m: AlertManagerView, ops: Seq<AlertOpView>, ts: Seq<char>)
    requires
        settled(m, ops),
    ensures
        apply_ops(m, ops, ts) == (m, Seq::<AlertView>::empty()),
    decreases ops.len(),
{
    if ops.len() > 0 {
        let rest = ops.drop_last();
        let n = rest.len() as int;
        assert(settled(m, rest)) by {
            assert forall|i: int| 0 <= i < rest.len() implies if rest[i] is Trigger {
                has_alert_type(m.active, op_type(#[trigger] rest[i]))
            } else {
                !has_alert_type(m.active, op_type(rest[i]))
            } by {
                assert(rest[i] == ops[i]);
            }
        }
        lemma_settled_unchanged(m, rest, ts);
        assert(ops[n] == ops.last());
        match ops.last() {
            AlertOpView::Trigger { .. } => {},
            AlertOpView::Clear { alert_type } => {
                lemma_clear_absent(m.active, alert_type);
                assert(clear_outcome(m, alert_type) == m);
            },
        }
    }
}

/// Two lists that keep raises apart from clears, where the second list touches no type of
/// the first, keep them apart together.
proof fn lemma_apart_join(a: Seq<AlertOpView>, b: Seq<AlertOpView>)
    requires
        raises_apart_from_clears(a),
        raises_apart_from_clears(b),
        forall|i: int| 0 <= i < a.len() ==> avoids(b, op_type(#[trigger] a[i])),
    ensures
        raises_apart_from_clears(a + b),
{
    let c = a + b;
    assert forall|i: int, j: int|
        0 <= i < c.len() && 0 <= j < c.len() && c[i] is Trigger && !(c[j] is Trigger) implies
        op_type(#[trigger] c[i]) != op_type(#[trigger] c[j]) by {
        let n = a.len() as int;
        if i < n && j < n {
            assert(c[i] == a[i] && c[j] == a[j]);
        } else if i >= n && j >= n {
            assert(c[i] == b[i - n] && c[j] == b[j - n]);
        } else if i < n {
            assert(c[i] == a[i] && c[j] == b[j - n]);
            assert(avoids(b, op_type(a[i])));
            assert(op_type(b[j - n]) != op_type(a[i]));
        } else {
            assert(c[j] == a[j] && c[i] == b[i - n]);
            assert(avoids(b, op_type(a[j])));
            assert(op_type(b[i - n]) != op_type(a[j]));
        }
    }
}

/// Every sensor rule raises.
proof fn lemma_sensor_ops_raise(rs: Seq<SensorObservation>)
    ensures
        forall|i: int| 0 <= i < sensor_ops(rs).len() ==> #[trigger] sensor_ops(rs)[i] is Trigger,
    decreases rs.len(),
{
    if rs.len() > 0 {
        lemma_sensor_ops_raise(rs.drop_last());
        let a = sensor_ops(rs.drop_last());
        let b = sensor_op(rs.last());
        assert forall|i: int| 0 <= i < (a + b).len() implies #[trigger] (a + b)[i] is Trigger by {
            if i < a.len() {
                assert((a + b)[i] == a[i]);
            } else {
                assert((a + b)[i] == b[i - a.len()]);
            }
        }
    }
}

/// Within a rule, a case either raises or clears, never both.
proof fn lemma_rules_apart(o: AnomalyObservations)
    ensures
        raises_apart_from_clears(battery_ops(o)),
        raises_apart_from_clears(drift_ops(o)),
        raises_apart_from_clears(sensor_ops(o.sensors@)),
        raises_apart_from_clears(geofence_ops(o)),
        raises_apart_from_clears(collision_ops(o)),
        raises_apart_from_clears(altitude_ops(o)),
        raises_apart_from_clears(energy_ops(o)),
        raises_apart_from_clears(hover_ops(o)),
{
    lemma_sensor_ops_raise(o.sensors@);
}

/// One evaluation never raises a type that it also clears.
#[verifier::rlimit(60)]
proof fn lemma_anomaly_ops_apart(o: AnomalyObservations)
    ensures
        raises_apart_from_clears(anomaly_ops(o)),
{
    let b = battery_ops(o);
    let d = drift_ops(o);
    let sn = sensor_ops(o.sensors@);
    let g = geofence_ops(o);
    let c = collision_ops(o);
    let a = altitude_ops(o);
    let e = energy_ops(o);
    let h = hover_ops(o);
    lemma_rules_apart(o);
    assert(raises_apart_from_clears(e + h)) by {
        lemma_rule_tags(o);
        assert forall|i: int| 0 <= i < e.len() implies avoids(h, op_type(#[trigger] e[i])) by {
            lemma_later_rules_avoid(o, op_type(e[i]), 7);
        }
        lemma_apart_join(e, h);
    }
    assert(raises_apart_from_clears(a + e + h)) by {
        lemma_rule_tags(o);
        assert forall|i: int| 0 <= i < a.len() implies avoids(e + h, op_type(#[trigger] a[i])) by {
            lemma_later_rules_avoid(o, op_type(a[i]), 6);
        }
        lemma_apart_join(a, e + h);
        assert(a + e + h =~= a + (e + h));
    }
    assert(raises_apart_from_clears(c + a + e + h)) by {
        lemma_rule_tags(o);
        assert forall|i: int| 0 <= i < c.len() implies avoids(a + e + h, op_type(#[trigger] c[i])) by {
            lemma_later_rules_avoid(o, op_type(c[i]), 5);
        }
        lemma_apart_join(c, a + e + h);
        assert(c + a + e + h =~= c + (a + e + h));
    }
    assert(raises_apart_from_clears(g + c + a + e + h)) by {
        lemma_rule_tags(o);
        assert forall|i: int| 0 <= i < g.len() implies avoids(c + a + e + h, op_type(#[trigger] g[i])) by {
            lemma_later_rules_avoid(o, op_type(g[i]), 4);
        }
        lemma_apart_join(g, c + a + e + h);
        assert(g + c + a + e + h =~= g + (c + a + e + h));
    }
    assert(raises_apart_from_clears(sn + g + c + a + e + h)) by {
        lemma_sensor_tags(o.sensors@);
        assert forall|i: int| 0 <= i < sn.len() implies avoids(g + c + a + e + h, op_type(#[trigger] sn[i])) by {
            lemma_later_rules_avoid(o, op_type(sn[i]), 3);
        }
        lemma_apart_join(sn, g + c + a + e + h);
        assert(sn + g + c + a + e + h =~= sn + (g + c + a + e + h));
    }
    assert(raises_apart_from_clears(d + sn + g + c + a + e + h)) by {
        lemma_rule_tags(o);
        assert forall|i: int| 0 <= i < d.len() implies avoids(sn + g + c + a + e + h, op_type(#[trigger] d[i])) by {
            lemma_later_rules_avoid(o, op_type(d[i]), 2);
        }
        lemma_apart_join(d, sn + g + c + a + e + h);
        assert(d + sn + g + c + a + e + h =~= d + (sn + g + c + a + e + h));
    }
    assert(raises_apart_from_clears(b + (d + sn + g + c + a + e + h))) by {
        lemma_rule_tags(o);
        assert forall|i: int| 0 <= i < b.len() implies avoids(d + sn + g + c + a + e + h, op_type(#[trigger] b[i])) by {
            lemma_later_rules_avoid(o, op_type(b[i]), 1);
        }
        lemma_apart_join(b, d + sn + g + c + a + e + h);
    }
    lemma_ops_split(o);
}

/// Evaluating the same observations a second time raises nothing and leaves the manager
/// exactly as the first evaluation left it.
pub proof fn law_evaluate_idempotent(m: AlertManagerView, o: AnomalyObservations)
    ensures
        ({
            let m1 = apply_ops(m, anomaly_ops(o), o.timestamp@).0;
            apply_ops(m1, anomaly_ops(o), o.timestamp@) == (m1, Seq::<AlertView>::empty())
        }),
{
    let ts = o.timestamp@;
    lemma_anomaly_ops_apart(o);
    lemma_apply_settles(m, anomaly_ops(o), ts);
    lemma_settled_unchanged(apply_ops(m, anomaly_ops(o), ts).0, anomaly_ops(o), ts);
}


/// Operations that never touch a type raise no alert of it.
proof fn lemma_raised_avoid(m: AlertManagerView, ops: Seq<AlertOpView>, ts: Seq<char>, t: Seq<char>)
    requires
        avoids(ops, t),
    ensures
        forall|i: int|
            0 <= i < apply_ops(m, ops, ts).1.len() ==> #[trigger] apply_ops(m, ops, ts).1[i].alert_type
                != t,
    decreases ops.len(),
{
    if ops.len() > 0 {
        let rest = ops.drop_last();
        assert(avoids(rest, t)) by {
            assert forall|i: int| 0 <= i < rest.len() implies op_type(#[trigger] rest[i]) != t by {
                assert(rest[i] == ops[i]);
            }
        }
        lemma_raised_avoid(m, rest, ts, t);
        assert(op_type(ops[ops.len() - 1]) != t);
    }
}

/// An evaluation raises the uncommanded-descent alert only for a hovering drone that sinks
/// fast: in any other flight mode, or without a fast descent, no `UNEXPECTED_FLIGHT_STATE`
/// alert is raised, and whether one is active stays as it was.
pub proof fn law_descent_alert_needs_hover(m: AlertManagerView, o: AnomalyObservations)
    requires
        !(o.flight_mode == FlightMode::Hover && o.descending_fast),
    ensures
        ({
            let (m1, raised) = apply_ops(m, anomaly_ops(o), o.timestamp@);
            &&& forall|i: int| 0 <= i < raised.len() ==> #[trigger] raised[i].alert_type
                != "UNEXPECTED_FLIGHT_STATE"@
            &&& has_alert_type(m1.active, "UNEXPECTED_FLIGHT_STATE"@) == has_alert_type(
                m.active,
                "UNEXPECTED_FLIGHT_STATE"@,
            )
        }),
{
    let t = "UNEXPECTED_FLIGHT_STATE"@;
    reveal_strlit("UNEXPECTED_FLIGHT_STATE");
    assert(t.len() >= 2 && t[0] == 'U' && t[1] == 'N');
    lemma_rule_tags(o);
    let b = battery_ops(o);
    let d = drift_ops(o);
    let sn = sensor_ops(o.sensors@);
    let g = geofence_ops(o);
    let c = collision_ops(o);
    let a = altitude_ops(o);
    let e = energy_ops(o);
    let h = hover_ops(o);
    assert(h.len() == 0);
    lemma_tagged_avoids(b, 'L', 'O', t);
    lemma_tagged_avoids(d, 'G', 'P', t);
    lemma_sensor_avoids(o.sensors@, t);
    lemma_tagged_avoids(g, 'G', 'E', t);
    lemma_tagged_avoids(c, 'C', 'O', t);
    lemma_tagged_avoids(a, 'E', 'X', t);
    lemma_tagged_avoids(e, 'F', 'A', t);
    lemma_avoids_concat(b, d, t);
    lemma_avoids_concat(b + d, sn, t);
    lemma_avoids_concat(b + d + sn, g, t);
    lemma_avoids_concat(b + d + sn + g, c, t);
    lemma_avoids_concat(b + d + sn + g + c, a, t);
    lemma_avoids_concat(b + d + sn + g + c + a, e, t);
    lemma_avoids_concat(b + d + sn + g + c + a + e, h, t);
    lemma_raised_avoid(m, anomaly_ops(o), o.timestamp@, t);
    lemma_untouched(m, anomaly_ops(o), t, o.timestamp@);
}


/// No operation of `ops` raises an alert of type `t`.
pub open spec fn never_raises(ops: Seq<AlertOpView>, t: Seq<char>) -> bool {
    forall|i: int| 0 <= i < ops.len() && ops[i] is Trigger ==> op_type(#[trigger] ops[i]) != t
}

proof fn lemma_never_raises_concat(a: Seq<AlertOpView>, b: Seq<AlertOpView>, t: Seq<char>)
    requires
        never_raises(a, t),
        never_raises(b, t),
    ensures
        never_raises(a + b, t),
{
    assert forall|i: int| 0 <= i < (a + b).len() && (a + b)[i] is Trigger implies op_type(
        #[trigger] (a + b)[i],
    ) != t by {
        if i < a.len() {
            assert((a + b)[i] == a[i]);
        } else {
            assert((a + b)[i] == b[i - a.len()]);
        }
    }
}

/// Operations that never raise a type raise no alert of it.
proof fn lemma_never_raised(m: AlertManagerView, ops: Seq<AlertOpView>, ts: Seq<char>, t: Seq<char>)
    requires
        never_raises(ops, t),
    ensures
        forall|i: int|
            0 <= i < apply_ops(m, ops, ts).1.len() ==> #[trigger] apply_ops(m, ops, ts).1[i].alert_type
                != t,
    decreases ops.len(),
{
    if ops.len() > 0 {
        let rest = ops.drop_last();
        assert(never_raises(rest, t)) by {
            assert forall|i: int| 0 <= i < rest.len() && rest[i] is Trigger implies op_type(
                #[trigger] rest[i],
            ) != t by {
                assert(rest[i] == ops[i]);
            }
        }
        lemma_never_raised(m, rest, ts, t);
        if ops.last() is Trigger {
            assert(op_type(ops[ops.len() - 1]) != t);
        }
    }
}

/// The rules other than the one a fixed alert type belongs to never raise it.
proof fn lemma_other_rules_never_raise(o: AnomalyObservations, t: Seq<char>)
    requires
        t.len() >= 2,
        t[0] != 'D',
    ensures
        !(t[0] == 'L' && t[1] == 'O') ==> never_raises(battery_ops(o), t),
        !(t[0] == 'G' && t[1] == 'P') ==> never_raises(drift_ops(o), t),
        never_raises(sensor_ops(o.sensors@), t),
        !(t[0] == 'G' && t[1] == 'E') ==> never_raises(geofence_ops(o), t),
        !(t[0] == 'C' && t[1] == 'O') ==> never_raises(collision_ops(o), t),
        !(t[0] == 'E' && t[1] == 'X') ==> never_raises(altitude_ops(o), t),
        !(t[0] == 'F' && t[1] == 'A') ==> never_raises(energy_ops(o), t),
        !(t[0] == 'U' && t[1] == 'N') ==> never_raises(hover_ops(o), t),
{
    lemma_rule_tags(o);
    lemma_sensor_avoids(o.sensors@, t);
    if !(t[0] == 'L' && t[1] == 'O') {
        lemma_tagged_avoids(battery_ops(o), 'L', 'O', t);
    }
    if !(t[0] == 'G' && t[1] == 'P') {
        lemma_tagged_avoids(drift_ops(o), 'G', 'P', t);
    }
    if !(t[0] == 'G' && t[1] == 'E') {
        lemma_tagged_avoids(geofence_ops(o), 'G', 'E', t);
    }
    if !(t[0] == 'C' && t[1] == 'O') {
        lemma_tagged_avoids(collision_ops(o), 'C', 'O', t);
    }
    if !(t[0] == 'E' && t[1] == 'X') {
        lemma_tagged_avoids(altitude_ops(o), 'E', 'X', t);
    }
    if !(t[0] == 'F' && t[1] == 'A') {
        lemma_tagged_avoids(energy_ops(o), 'F', 'A', t);
    }
    if !(t[0] == 'U' && t[1] == 'N') {
        lemma_tagged_avoids(hover_ops(o), 'U', 'N', t);
    }
}

/// A type that no rule raises is raised by no evaluation.
proof fn lemma_rules_never_raise(o: AnomalyObservations, t: Seq<char>)
    requires
        never_raises(battery_ops(o), t),
        never_raises(drift_ops(o), t),
        never_raises(sensor_ops(o.sensors@), t),
        never_raises(geofence_ops(o), t),
        never_raises(collision_ops(o), t),
        never_raises(altitude_ops(o), t),
        never_raises(energy_ops(o), t),
        never_raises(hover_ops(o), t),
    ensures
        never_raises(anomaly_ops(o), t),
{
    let b = battery_ops(o);
    let d = drift_ops(o);
    let sn = sensor_ops(o.sensors@);
    let g = geofence_ops(o);
    let c = collision_ops(o);
    let a = altitude_ops(o);
    let e = energy_ops(o);
    let h = hover_ops(o);
    lemma_never_raises_concat(b, d, t);
    lemma_never_raises_concat(b + d, sn, t);
    lemma_never_raises_concat(b + d + sn, g, t);
    lemma_never_raises_concat(b + d + sn + g, c, t);
    lemma_never_raises_concat(b + d + sn + g + c, a, t);
    lemma_never_raises_concat(b + d + sn + g + c + a, e, t);
    lemma_never_raises_concat(b + d + sn + g + c + a + e, h, t);
}


/// The lengths and first letters of the fixed alert types.
proof fn lemma_fixed_types()
    ensures
        "LOW_BATTERY_CRITICAL"@.len() == 20 && "LOW_BATTERY_CRITICAL"@[0] == 'L' && "LOW_BATTERY_CRITICAL"@[1] == 'O',
        "LOW_BATTERY_WARNING"@.len() == 19 && "LOW_BATTERY_WARNING"@[0] == 'L' && "LOW_BATTERY_WARNING"@[1] == 'O',
        "GPS_DRIFT_DETECTED"@.len() == 18 && "GPS_DRIFT_DETECTED"@[0] == 'G' && "GPS_DRIFT_DETECTED"@[1] == 'P',
        "GEOFENCE_BREACH"@.len() == 15 && "GEOFENCE_BREACH"@[0] == 'G' && "GEOFENCE_BREACH"@[1] == 'E',
        "GEOFENCE_WARNING"@.len() == 16 && "GEOFENCE_WARNING"@[0] == 'G' && "GEOFENCE_WARNING"@[1] == 'E',
        "COLLISION_DETECTED"@.len() == 18 && "COLLISION_DETECTED"@[0] == 'C' && "COLLISION_DETECTED"@[1] == 'O',
        "COLLISION_RISK_CRITICAL"@.len() == 23 && "COLLISION_RISK_CRITICAL"@[0] == 'C' && "COLLISION_RISK_CRITICAL"@[1] == 'O',
        "COLLISION_RISK_CAUTION"@.len() == 22 && "COLLISION_RISK_CAUTION"@[0] == 'C' && "COLLISION_RISK_CAUTION"@[1] == 'O',
        "EXCESSIVE_ALTITUDE"@.len() == 18 && "EXCESSIVE_ALTITUDE"@[0] == 'E' && "EXCESSIVE_ALTITUDE"@[1] == 'X',
        "FAILED_RTH_ENERGY_DEFICIT"@.len() == 25 && "FAILED_RTH_ENERGY_DEFICIT"@[0] == 'F' && "FAILED_RTH_ENERGY_DEFICIT"@[1] == 'A',
        "UNEXPECTED_FLIGHT_STATE"@.len() == 23 && "UNEXPECTED_FLIGHT_STATE"@[0] == 'U' && "UNEXPECTED_FLIGHT_STATE"@[1] == 'N',
{
    reveal_strlit("LOW_BATTERY_CRITICAL");
    assert("LOW_BATTERY_CRITICAL"@.len() == 20 && "LOW_BATTERY_CRITICAL"@[0] == 'L' && "LOW_BATTERY_CRITICAL"@[1] == 'O');
    reveal_strlit("LOW_BATTERY_WARNING");
    assert("LOW_BATTERY_WARNING"@.len() == 19 && "LOW_BATTERY_WARNING"@[0] == 'L' && "LOW_BATTERY_WARNING"@[1] == 'O');
    reveal_strlit("GPS_DRIFT_DETECTED");
    assert("GPS_DRIFT_DETECTED"@.len() == 18 && "GPS_DRIFT_DETECTED"@[0] == 'G' && "GPS_DRIFT_DETECTED"@[1] == 'P');
    reveal_strlit("GEOFENCE_BREACH");
    assert("GEOFENCE_BREACH"@.len() == 15 && "GEOFENCE_BREACH"@[0] == 'G' && "GEOFENCE_BREACH"@[1] == 'E');
    reveal_strlit("GEOFENCE_WARNING");
    assert("GEOFENCE_WARNING"@.len() == 16 && "GEOFENCE_WARNING"@[0] == 'G' && "GEOFENCE_WARNING"@[1] == 'E');
    reveal_strlit("COLLISION_DETECTED");
    assert("COLLISION_DETECTED"@.len() == 18 && "COLLISION_DETECTED"@[0] == 'C' && "COLLISION_DETECTED"@[1] == 'O');
    reveal_strlit("COLLISION_RISK_CRITICAL");
    assert("COLLISION_RISK_CRITICAL"@.len() == 23 && "COLLISION_RISK_CRITICAL"@[0] == 'C' && "COLLISION_RISK_CRITICAL"@[1] == 'O');
    reveal_strlit("COLLISION_RISK_CAUTION");
    assert("COLLISION_RISK_CAUTION"@.len() == 22 && "COLLISION_RISK_CAUTION"@[0] == 'C' && "COLLISION_RISK_CAUTION"@[1] == 'O');
    reveal_strlit("EXCESSIVE_ALTITUDE");
    assert("EXCESSIVE_ALTITUDE"@.len() == 18 && "EXCESSIVE_ALTITUDE"@[0] == 'E' && "EXCESSIVE_ALTITUDE"@[1] == 'X');
    reveal_strlit("FAILED_RTH_ENERGY_DEFICIT");
    assert("FAILED_RTH_ENERGY_DEFICIT"@.len() == 25 && "FAILED_RTH_ENERGY_DEFICIT"@[0] == 'F' && "FAILED_RTH_ENERGY_DEFICIT"@[1] == 'A');
    reveal_strlit("UNEXPECTED_FLIGHT_STATE");
    assert("UNEXPECTED_FLIGHT_STATE"@.len() == 23 && "UNEXPECTED_FLIGHT_STATE"@[0] == 'U' && "UNEXPECTED_FLIGHT_STATE"@[1] == 'N');
}

/// No evaluation raises `LOW_BATTERY_CRITICAL` unless its condition holds.
proof fn lemma_due_battery_critical(o: AnomalyObservations)
    requires
        !(o.battery == BatteryLevel::Critical),
    ensures
        never_raises(anomaly_ops(o), "LOW_BATTERY_CRITICAL"@),
{
    lemma_fixed_types();
    lemma_other_rules_never_raise(o, "LOW_BATTERY_CRITICAL"@);
    lemma_rules_never_raise(o, "LOW_BATTERY_CRITICAL"@);
}

/// No evaluation raises `LOW_BATTERY_WARNING` unless its condition holds.
proof fn lemma_due_battery_low(o: AnomalyObservations)
    requires
        !(o.battery == BatteryLevel::Low),
    ensures
        never_raises(anomaly_ops(o), "LOW_BATTERY_WARNING"@),
{
    lemma_fixed_types();
    lemma_other_rules_never_raise(o, "LOW_BATTERY_WARNING"@);
    lemma_rules_never_raise(o, "LOW_BATTERY_WARNING"@);
}

/// No evaluation raises `GPS_DRIFT_DETECTED` unless its condition holds.
proof fn lemma_due_drift(o: AnomalyObservations)
    requires
        !(o.drift == DriftLevel::Divergent),
    ensures
        never_raises(anomaly_ops(o), "GPS_DRIFT_DETECTED"@),
{
    lemma_fixed_types();
    lemma_other_rules_never_raise(o, "GPS_DRIFT_DETECTED"@);
    lemma_rules_never_raise(o, "GPS_DRIFT_DETECTED"@);
}

/// No evaluation raises `GEOFENCE_BREACH` unless its condition holds.
proof fn lemma_due_breach(o: AnomalyObservations)
    requires
        !(o.geofence == GeofenceStatus::Breached),
    ensures
        never_raises(anomaly_ops(o), "GEOFENCE_BREACH"@),
{
    lemma_fixed_types();
    lemma_other_rules_never_raise(o, "GEOFENCE_BREACH"@);
    lemma_rules_never_raise(o, "GEOFENCE_BREACH"@);
}

/// No evaluation raises `GEOFENCE_WARNING` unless its condition holds.
proof fn lemma_due_geofence_warning(o: AnomalyObservations)
    requires
        !(o.geofence == GeofenceStatus::WarningBuffer),
    ensures
        never_raises(anomaly_ops(o), "GEOFENCE_WARNING"@),
{
    lemma_fixed_types();
    lemma_other_rules_never_raise(o, "GEOFENCE_WARNING"@);
    lemma_rules_never_raise(o, "GEOFENCE_WARNING"@);
}

/// No evaluation raises `COLLISION_DETECTED` unless its condition holds.
proof fn lemma_due_collision(o: AnomalyObservations)
    requires
        !(o.collision_detected),
    ensures
        never_raises(anomaly_ops(o), "COLLISION_DETECTED"@),
{
    lemma_fixed_types();
    lemma_other_rules_never_raise(o, "COLLISION_DETECTED"@);
    lemma_rules_never_raise(o, "COLLISION_DETECTED"@);
}

/// No evaluation raises `COLLISION_RISK_CRITICAL` unless its condition holds.
proof fn lemma_due_risk_critical(o: AnomalyObservations)
    requires
        !(!o.collision_detected && o.collision_risk == CollisionRiskLevel::Critical),
    ensures
        never_raises(anomaly_ops(o), "COLLISION_RISK_CRITICAL"@),
{
    lemma_fixed_types();
    lemma_other_rules_never_raise(o, "COLLISION_RISK_CRITICAL"@);
    lemma_rules_never_raise(o, "COLLISION_RISK_CRITICAL"@);
}

/// No evaluation raises `COLLISION_RISK_CAUTION` unless its condition holds.
proof fn lemma_due_risk_caution(o: AnomalyObservations)
    requires
        !(!o.collision_detected && o.collision_risk == CollisionRiskLevel::Caution),
    ensures
        never_raises(anomaly_ops(o), "COLLISION_RISK_CAUTION"@),
{
    lemma_fixed_types();
    lemma_other_rules_never_raise(o, "COLLISION_RISK_CAUTION"@);
    lemma_rules_never_raise(o, "COLLISION_RISK_CAUTION"@);
}

/// No evaluation raises `EXCESSIVE_ALTITUDE` unless its condition holds.
proof fn lemma_due_altitude(o: AnomalyObservations)
    requires
        !(o.altitude_exceeded),
    ensures
        never_raises(anomaly_ops(o), "EXCESSIVE_ALTITUDE"@),
{
    lemma_fixed_types();
    lemma_other_rules_never_raise(o, "EXCESSIVE_ALTITUDE"@);
    lemma_rules_never_raise(o, "EXCESSIVE_ALTITUDE"@);
}

/// No evaluation raises `FAILED_RTH_ENERGY_DEFICIT` unless its condition holds.
proof fn lemma_due_energy(o: AnomalyObservations)
    requires
        !(o.flight_mode != FlightMode::Landed && o.flight_mode != FlightMode::Disarmed && o.energy_short),
    ensures
        never_raises(anomaly_ops(o), "FAILED_RTH_ENERGY_DEFICIT"@),
{
    lemma_fixed_types();
    lemma_other_rules_never_raise(o, "FAILED_RTH_ENERGY_DEFICIT"@);
    lemma_rules_never_raise(o, "FAILED_RTH_ENERGY_DEFICIT"@);
}

/// No evaluation raises `UNEXPECTED_FLIGHT_STATE` unless its condition holds.
proof fn lemma_due_hover(o: AnomalyObservations)
    requires
        !(o.flight_mode == FlightMode::Hover && o.descending_fast),
    ensures
        never_raises(anomaly_ops(o), "UNEXPECTED_FLIGHT_STATE"@),
{
    lemma_fixed_types();
    lemma_other_rules_never_raise(o, "UNEXPECTED_FLIGHT_STATE"@);
    lemma_rules_never_raise(o, "UNEXPECTED_FLIGHT_STATE"@);
}

/// An evaluation raises an alert of a fixed type only when that alert's condition holds:
/// a critical-battery alert only in the critical band, a low-battery alert only in the low
/// band, a drift alert only for a divergent estimate, a breach or warning only for that
/// geofence state, an impact alert only on impact, a proximity alert only without impact
/// and in its risk band, an altitude alert only above the ceiling, an energy alert only
/// for a drone off the ground that lacks the energy, and an uncommanded-descent alert only
/// for a hovering drone that sinks fast.
pub proof fn law_alert_raised_only_when_due(m: AlertManagerView, o: AnomalyObservations)
    ensures
        forall|i: int|
            0 <= i < apply_ops(m, anomaly_ops(o), o.timestamp@).1.len() ==> {
                let ty = #[trigger] apply_ops(m, anomaly_ops(o), o.timestamp@).1[i].alert_type;
            &&& ty == "LOW_BATTERY_CRITICAL"@ ==> o.battery == BatteryLevel::Critical
            &&& ty == "LOW_BATTERY_WARNING"@ ==> o.battery == BatteryLevel::Low
            &&& ty == "GPS_DRIFT_DETECTED"@ ==> o.drift == DriftLevel::Divergent
            &&& ty == "GEOFENCE_BREACH"@ ==> o.geofence == GeofenceStatus::Breached
            &&& ty == "GEOFENCE_WARNING"@ ==> o.geofence == GeofenceStatus::WarningBuffer
            &&& ty == "COLLISION_DETECTED"@ ==> o.collision_detected
            &&& ty == "COLLISION_RISK_CRITICAL"@ ==> !o.collision_detected && o.collision_risk == CollisionRiskLevel::Critical
            &&& ty == "COLLISION_RISK_CAUTION"@ ==> !o.collision_detected && o.collision_risk == CollisionRiskLevel::Caution
            &&& ty == "EXCESSIVE_ALTITUDE"@ ==> o.altitude_exceeded
            &&& ty == "FAILED_RTH_ENERGY_DEFICIT"@ ==> o.flight_mode != FlightMode::Landed && o.flight_mode != FlightMode::Disarmed && o.energy_short
            &&& ty == "UNEXPECTED_FLIGHT_STATE"@ ==> o.flight_mode == FlightMode::Hover && o.descending_fast
            },
{
    let ts = o.timestamp@;
    if !(o.battery == BatteryLevel::Critical) {
        lemma_due_battery_critical(o);
        lemma_never_raised(m, anomaly_ops(o), ts, "LOW_BATTERY_CRITICAL"@);
    }
    if !(o.battery == BatteryLevel::Low) {
        lemma_due_battery_low(o);
        lemma_never_raised(m, anomaly_ops(o), ts, "LOW_BATTERY_WARNING"@);
    }
    if !(o.drift == DriftLevel::Divergent) {
        lemma_due_drift(o);
        lemma_never_raised(m, anomaly_ops(o), ts, "GPS_DRIFT_DETECTED"@);
    }
    if !(o.geofence == GeofenceStatus::Breached) {
        lemma_due_breach(o);
        lemma_never_raised(m, anomaly_ops(o), ts, "GEOFENCE_BREACH"@);
    }
    if !(o.geofence == GeofenceStatus::WarningBuffer) {
        lemma_due_geofence_warning(o);
        lemma_never_raised(m, anomaly_ops(o), ts, "GEOFENCE_WARNING"@);
    }
    if !(o.collision_detected) {
        lemma_due_collision(o);
        lemma_never_raised(m, anomaly_ops(o), ts, "COLLISION_DETECTED"@);
    }
    if !(!o.collision_detected && o.collision_risk == CollisionRiskLevel::Critical) {
        lemma_due_risk_critical(o);
        lemma_never_raised(m, anomaly_ops(o), ts, "COLLISION_RISK_CRITICAL"@);
    }
    if !(!o.collision_detected && o.collision_risk == CollisionRiskLevel::Caution) {
        lemma_due_risk_caution(o);
        lemma_never_raised(m, anomaly_ops(o), ts, "COLLISION_RISK_CAUTION"@);
    }
    if !(o.altitude_exceeded) {
        lemma_due_altitude(o);
        lemma_never_raised(m, anomaly_ops(o), ts, "EXCESSIVE_ALTITUDE"@);
    }
    if !(o.flight_mode != FlightMode::Landed && o.flight_mode != FlightMode::Disarmed && o.energy_short) {
        lemma_due_energy(o);
        lemma_never_raised(m, anomaly_ops(o), ts, "FAILED_RTH_ENERGY_DEFICIT"@);
    }
    if !(o.flight_mode == FlightMode::Hover && o.descending_fast) {
        lemma_due_hover(o);
        lemma_never_raised(m, anomaly_ops(o), ts, "UNEXPECTED_FLIGHT_STATE"@);
    }
}

} // verus!
