//! Flight modes and the mode logic of the drone: arming, take-off, landing, return to home,
//! emergency landing, hovering and waypoint following.

use vstd::prelude::*;
use vstd::string::*;

verus! {

broadcast use vstd::string::group_string_axioms;

/// Operational flight modes for autonomous guidance.
#[derive(Debug, Clone, Copy, PartialEq, Eq, Structural)]
pub enum FlightMode {
    Disarmed,
    Armed,
    Takeoff,
    Hover,
    WaypointFollow,
    ReturnToHome,
    EmergencyLand,
    Landed,
    Collision,
}

/// The display label of a flight mode.
pub open spec fn mode_label(m: FlightMode) -> Seq<char> {
    match m {
        FlightMode::Disarmed => "DISARMED"@,
        FlightMode::Armed => "ARMED"@,
        FlightMode::Takeoff => "TAKEOFF"@,
        FlightMode::Hover => "HOVER"@,
        FlightMode::WaypointFollow => "WAYPOINT_FOLLOW"@,
        FlightMode::ReturnToHome => "RETURN_TO_HOME"@,
        FlightMode::EmergencyLand => "EMERGENCY_LAND"@,
        FlightMode::Landed => "LANDED"@,
        FlightMode::Collision => "COLLISION"@,
    }
}

/// The name under which a flight mode is recorded: its variant name.
pub open spec fn mode_name(m: FlightMode) -> Seq<char> {
    match m {
        FlightMode::Disarmed => "Disarmed"@,
        FlightMode::Armed => "Armed"@,
        FlightMode::Takeoff => "Takeoff"@,
        FlightMode::Hover => "Hover"@,
        FlightMode::WaypointFollow => "WaypointFollow"@,
        FlightMode::ReturnToHome => "ReturnToHome"@,
        FlightMode::EmergencyLand => "EmergencyLand"@,
        FlightMode::Landed => "Landed"@,
        FlightMode::Collision => "Collision"@,
    }
}

/// The mode a recorded name reads back as. Recordings only restore in-flight and terminal
/// modes; any other name (the ground modes included) reads back as `Armed`.
pub open spec fn mode_from_name(name: Seq<char>) -> FlightMode {
    if name == "Takeoff"@ {
        FlightMode::Takeoff
    } else if name == "Hover"@ {
        FlightMode::Hover
    } else if name == "WaypointFollow"@ {
        FlightMode::WaypointFollow
    } else if name == "ReturnToHome"@ {
        FlightMode::ReturnToHome
    } else if name == "EmergencyLand"@ {
        FlightMode::EmergencyLand
    } else if name == "Landed"@ {
        FlightMode::Landed
    } else if name == "Collision"@ {
        FlightMode::Collision
    } else {
        FlightMode::Armed
    }
}

impl FlightMode {
    /// The display label, such as `WAYPOINT_FOLLOW`.
    pub fn label(&self) -> (s: String)
        ensures
            s@ == mode_label(*self),
    {
        match self {
            FlightMode::Disarmed => "DISARMED".to_string(),
            FlightMode::Armed => "ARMED".to_string(),
            FlightMode::Takeoff => "TAKEOFF".to_string(),
            FlightMode::Hover => "HOVER".to_string(),
            FlightMode::WaypointFollow => "WAYPOINT_FOLLOW".to_string(),
            FlightMode::ReturnToHome => "RETURN_TO_HOME".to_string(),
            FlightMode::EmergencyLand => "EMERGENCY_LAND".to_string(),
            FlightMode::Landed => "LANDED".to_string(),
            FlightMode::Collision => "COLLISION".to_string(),
        }
    }

    /// The name under which the mode is recorded, such as `WaypointFollow`.
    pub fn recorded_name(&self) -> (s: String)
        ensures
            s@ == mode_name(*self),
    {
        match self {
            FlightMode::Disarmed => "Disarmed".to_string(),
            FlightMode::Armed => "Armed".to_string(),
            FlightMode::Takeoff => "Takeoff".to_string(),
            FlightMode::Hover => "Hover".to_string(),
            FlightMode::WaypointFollow => "WaypointFollow".to_string(),
            FlightMode::ReturnToHome => "ReturnToHome".to_string(),
            FlightMode::EmergencyLand => "EmergencyLand".to_string(),
            FlightMode::Landed => "Landed".to_string(),
            FlightMode::Collision => "Collision".to_string(),
        }
    }

    /// Reads a recorded mode name back.
    pub fn from_recorded_name(name: &str) -> (m: FlightMode)
        ensures
            m == mode_from_name(name@),
    {
        let n = name.to_string();
        if n == "Takeoff".to_string() {
            FlightMode::Takeoff
        } else if n == "Hover".to_string() {
            FlightMode::Hover
        } else if n == "WaypointFollow".to_string() {
            FlightMode::WaypointFollow
        } else if n == "ReturnToHome".to_string() {
            FlightMode::ReturnToHome
        } else if n == "EmergencyLand".to_string() {
            FlightMode::EmergencyLand
        } else if n == "Landed".to_string() {
            FlightMode::Landed
        } else if n == "Collision".to_string() {
            FlightMode::Collision
        } else {
            FlightMode::Armed
        }
    }
}

/// The logical part of the drone state: mode, arming, and the fail-safe flags.
#[derive(Debug, Clone, Copy, PartialEq, Eq, Structural)]
pub struct FlightStatus {
    pub flight_mode: FlightMode,
    pub armed: bool,
    pub return_to_home: bool,
    pub emergency: bool,
    pub current_waypoint_index: Option<usize>,
}

/// Arming is allowed when the battery is not critically low and no collision lock is active.
pub open spec fn arm_allowed(s: FlightStatus, battery_critically_low: bool) -> bool {
    !battery_critically_low && s.flight_mode != FlightMode::Collision
}

/// Why arming with a critically low battery is refused.
pub open spec fn arm_refusal_low_battery() -> Seq<char> {
    "Cannot arm drone: Battery critically low (<10%)"@
}

/// Why arming a drone locked by a collision is refused.
pub open spec fn arm_refusal_collision() -> Seq<char> {
    "Cannot arm drone: Physical collision lock active"@
}

/// Why taking off unarmed is refused.
pub open spec fn takeoff_refusal() -> Seq<char> {
    "Cannot takeoff: Drone is not armed"@
}

impl FlightStatus {
    /// A drone on the launch pad: disarmed, no fail-safe active, no waypoint.
    pub fn new() -> (s: Self)
        ensures
            s == (FlightStatus {
                flight_mode: FlightMode::Disarmed,
                armed: false,
                return_to_home: false,
                emergency: false,
                current_waypoint_index: None,
            }),
    {
        FlightStatus {
            flight_mode: FlightMode::Disarmed,
            armed: false,
            return_to_home: false,
            emergency: false,
            current_waypoint_index: None,
        }
    }

    /// Arms the motors, unless the battery is critically low (below 10%) or a collision
    /// lock is active; the battery test comes first.
    pub fn arm(&mut self, battery_critically_low: bool) -> (r: Result<(), String>)
        ensures
            r is Ok <==> arm_allowed(*old(self), battery_critically_low),
            battery_critically_low ==> (r matches Err(e) && e@ == arm_refusal_low_battery()),
            !battery_critically_low && old(self).flight_mode == FlightMode::Collision ==> (r matches Err(
                e,
            ) && e@ == arm_refusal_collision()),
            r is Err ==> *final(self) == *old(self),
            r is Ok ==> *final(self) == (FlightStatus {
                armed: true,
                flight_mode: FlightMode::Armed,
                ..*old(self)
            }),
    {
        if battery_critically_low {
            return Err("Cannot arm drone: Battery critically low (<10%)".to_string());
        }
        if self.flight_mode == FlightMode::Collision {
            return Err("Cannot arm drone: Physical collision lock active".to_string());
        }
        self.armed = true;
        self.flight_mode = FlightMode::Armed;
        Ok(())
    }

    /// Disarms the motors: the drone counts as landed when on the ground (at most 0.2 m
    /// up), and as disarmed otherwise.
    pub fn disarm(&mut self, on_ground: bool)
        ensures
            *final(self) == (FlightStatus {
                armed: false,
                flight_mode: if on_ground {
                    FlightMode::Landed
                } else {
                    FlightMode::Disarmed
                },
                ..*old(self)
            }),
    {
        self.armed = false;
        if on_ground {
            self.flight_mode = FlightMode::Landed;
        } else {
            self.flight_mode = FlightMode::Disarmed;
        }
    }

    /// Starts a take-off, which needs armed motors; it ends any emergency.
    pub fn takeoff(&mut self) -> (r: Result<(), String>)
        ensures
            !old(self).armed ==> (r matches Err(e) && e@ == takeoff_refusal()) && *final(self) == *old(self),
            old(self).armed ==> r is Ok && *final(self) == (FlightStatus {
                flight_mode: FlightMode::Takeoff,
                emergency: false,
                ..*old(self)
            }),
    {
        if !self.armed {
            return Err("Cannot takeoff: Drone is not armed".to_string());
        }
        self.flight_mode = FlightMode::Takeoff;
        self.emergency = false;
        Ok(())
    }

    /// Switches to landed.
    pub fn land(&mut self)
        ensures
            *final(self) == (FlightStatus { flight_mode: FlightMode::Landed, ..*old(self) }),
    {
        self.flight_mode = FlightMode::Landed;
    }

    /// Starts the return-to-home fail-safe.
    pub fn return_to_home(&mut self)
        ensures
            *final(self) == (FlightStatus {
                return_to_home: true,
                flight_mode: FlightMode::ReturnToHome,
                ..*old(self)
            }),
    {
        self.return_to_home = true;
        self.flight_mode = FlightMode::ReturnToHome;
    }

    /// Starts an emergency landing.
    pub fn emergency_land(&mut self)
        ensures
            *final(self) == (FlightStatus {
                emergency: true,
                flight_mode: FlightMode::EmergencyLand,
                ..*old(self)
            }),
    {
        self.emergency = true;
        self.flight_mode = FlightMode::EmergencyLand;
    }

    /// Holds station, which needs armed motors and a drone in the air (above 0.5 m);
    /// returns whether the mode changed.
    pub fn hover(&mut self, airborne: bool) -> (changed: bool)
        ensures
            changed == (old(self).armed && airborne),
            changed ==> *final(self) == (FlightStatus { flight_mode: FlightMode::Hover, ..*old(self) }),
            !changed ==> *final(self) == *old(self),
    {
        if self.armed && airborne {
            self.flight_mode = FlightMode::Hover;
            true
        } else {
            false
        }
    }

    /// Follows a waypoint.
    pub fn set_waypoint(&mut self, waypoint_id: usize)
        ensures
            *final(self) == (FlightStatus {
                flight_mode: FlightMode::WaypointFollow,
                current_waypoint_index: Some(waypoint_id),
                ..*old(self)
            }),
    {
        self.flight_mode = FlightMode::WaypointFollow;
        self.current_waypoint_index = Some(waypoint_id);
    }

    /// The drone rests on the ground without simulated motion: motors off and no
    /// collision in progress.
    pub fn is_resting(&self) -> (b: bool)
        ensures
            b == (!self.armed && self.flight_mode != FlightMode::Collision),
    {
        !self.armed && self.flight_mode != FlightMode::Collision
    }

    /// A take-off or waypoint leg reached its target: the drone holds station.
    pub fn target_reached(&mut self)
        ensures
            *final(self) == (FlightStatus { flight_mode: FlightMode::Hover, ..*old(self) }),
    {
        self.flight_mode = FlightMode::Hover;
    }

    /// The return-to-home descent touched down: the motors disarm on the ground and the
    /// fail-safe ends.
    pub fn home_touchdown(&mut self)
        ensures
            *final(self) == (FlightStatus {
                armed: false,
                flight_mode: FlightMode::Landed,
                return_to_home: false,
                ..*old(self)
            }),
    {
        self.disarm(true);
        self.return_to_home = false;
    }

    /// An emergency descent touched down: the motors disarm on the ground.
    pub fn emergency_touchdown(&mut self)
        ensures
            *final(self) == (FlightStatus { armed: false, flight_mode: FlightMode::Landed, ..*old(self) }),
    {
        self.disarm(true);
    }

    /// A drone that struck an obstacle reached the ground: the motors stop, the collision
    /// lock stays.
    pub fn collision_grounded(&mut self)
        ensures
            *final(self) == (FlightStatus { armed: false, ..*old(self) }),
    {
        self.armed = false;
    }
}

/// A collision lock cannot be armed away: whatever the battery, arming a drone in
/// collision mode is refused (and a refused arming changes nothing).
pub proof fn law_collision_blocks_arming(s: FlightStatus, battery_critically_low: bool)
    requires
        s.flight_mode == FlightMode::Collision,
    ensures
        !arm_allowed(s, battery_critically_low),
{
}

/// Every recorded mode name reads back as its mode, except the two ground modes
/// before arming, which read back as armed.
pub proof fn law_recorded_name_round_trip(m: FlightMode)
    ensures
        m != FlightMode::Disarmed ==> mode_from_name(mode_name(m)) == m,
        m == FlightMode::Disarmed ==> mode_from_name(mode_name(m)) == FlightMode::Armed,
{
    reveal_strlit("Disarmed");
    reveal_strlit("Armed");
    reveal_strlit("Takeoff");
    reveal_strlit("Hover");
    reveal_strlit("WaypointFollow");
    reveal_strlit("ReturnToHome");
    reveal_strlit("EmergencyLand");
    reveal_strlit("Landed");
    reveal_strlit("Collision");
    assert("Armed"@[0] != "Hover"@[0]);
    assert("Armed"@ != "Hover"@);
    let n = mode_name(m);
    assert(n.len() == 5 ==> n == "Armed"@ || n == "Hover"@);
}


/// The upper-case form of an ASCII letter; any other character stays as it is.
pub open spec fn ascii_upper(c: char) -> char {
    if 'a' <= c && c <= 'z' {
        ((c as u32) - 32) as char
    } else {
        c
    }
}

/// An ASCII upper-case letter.
pub open spec fn is_ascii_upper(c: char) -> bool {
    'A' <= c && c <= 'Z'
}

/// The characters after the first of a camel-case name, in upper snake case: every
/// upper-case letter starts a new word, after an underscore.
pub open spec fn snake_rest(s: Seq<char>) -> Seq<char>
    decreases s.len(),
{
    if s.len() == 0 {
        seq![]
    } else {
        (if is_ascii_upper(s[0]) {
            seq!['_', s[0]]
        } else {
            seq![ascii_upper(s[0])]
        }) + snake_rest(s.drop_first())
    }
}

/// A camel-case name in upper snake case: `WaypointFollow` becomes `WAYPOINT_FOLLOW`.
pub open spec fn upper_snake(s: Seq<char>) -> Seq<char> {
    if s.len() == 0 {
        seq![]
    } else {
        seq![ascii_upper(s[0])] + snake_rest(s.drop_first())
    }
}

/// Every flight mode's display label is its recorded (variant) name in upper snake case,
/// and distinct modes have distinct labels.
pub proof fn law_label_names_mode(m: FlightMode, n: FlightMode)
    ensures
        mode_label(m) == upper_snake(mode_name(m)),
        mode_label(m) == mode_label(n) ==> m == n,
{
    lemma_label_is_snake(m);
    lemma_labels_distinct(m, n);
}

/// A mode's label is its name in upper snake case.
proof fn lemma_label_is_snake(m: FlightMode)
    ensures
        mode_label(m) == upper_snake(mode_name(m)),
{
    match m {
        FlightMode::Disarmed => lemma_snake_disarmed(),
        FlightMode::Armed => lemma_snake_armed(),
        FlightMode::Takeoff => lemma_snake_takeoff(),
        FlightMode::Hover => lemma_snake_hover(),
        FlightMode::WaypointFollow => lemma_snake_waypoint_follow(),
        FlightMode::ReturnToHome => lemma_snake_return_to_home(),
        FlightMode::EmergencyLand => lemma_snake_emergency_land(),
        FlightMode::Landed => lemma_snake_landed(),
        FlightMode::Collision => lemma_snake_collision(),
    }
}

/// The label of `Disarmed` is its name in upper snake case.
proof fn lemma_snake_disarmed()
    ensures
        upper_snake("Disarmed"@) == "DISARMED"@,
{
    reveal_with_fuel(snake_rest, 16);
    reveal_strlit("Disarmed");
    reveal_strlit("DISARMED");
    assert(upper_snake("Disarmed"@) =~= "DISARMED"@);
}

/// The label of `Armed` is its name in upper snake case.
proof fn lemma_snake_armed()
    ensures
        upper_snake("Armed"@) == "ARMED"@,
{
    reveal_with_fuel(snake_rest, 16);
    reveal_strlit("Armed");
    reveal_strlit("ARMED");
    assert(upper_snake("Armed"@) =~= "ARMED"@);
}

/// The label of `Takeoff` is its name in upper snake case.
proof fn lemma_snake_takeoff()
    ensures
        upper_snake("Takeoff"@) == "TAKEOFF"@,
{
    reveal_with_fuel(snake_rest, 16);
    reveal_strlit("Takeoff");
    reveal_strlit("TAKEOFF");
    assert(upper_snake("Takeoff"@) =~= "TAKEOFF"@);
}

/// The label of `Hover` is its name in upper snake case.
proof fn lemma_snake_hover()
    ensures
        upper_snake("Hover"@) == "HOVER"@,
{
    reveal_with_fuel(snake_rest, 16);
    reveal_strlit("Hover");
    reveal_strlit("HOVER");
    assert(upper_snake("Hover"@) =~= "HOVER"@);
}

/// The label of `WaypointFollow` is its name in upper snake case.
proof fn lemma_snake_waypoint_follow()
    ensures
        upper_snake("WaypointFollow"@) == "WAYPOINT_FOLLOW"@,
{
    reveal_with_fuel(snake_rest, 16);
    reveal_strlit("WaypointFollow");
    reveal_strlit("WAYPOINT_FOLLOW");
    assert(upper_snake("WaypointFollow"@) =~= "WAYPOINT_FOLLOW"@);
}

/// The label of `ReturnToHome` is its name in upper snake case.
proof fn lemma_snake_return_to_home()
    ensures
        upper_snake("ReturnToHome"@) == "RETURN_TO_HOME"@,
{
    reveal_with_fuel(snake_rest, 16);
    reveal_strlit("ReturnToHome");
    reveal_strlit("RETURN_TO_HOME");
    assert(upper_snake("ReturnToHome"@) =~= "RETURN_TO_HOME"@);
}

/// The label of `EmergencyLand` is its name in upper snake case.
proof fn lemma_snake_emergency_land()
    ensures
        upper_snake("EmergencyLand"@) == "EMERGENCY_LAND"@,
{
    reveal_with_fuel(snake_rest, 16);
    reveal_strlit("EmergencyLand");
    reveal_strlit("EMERGENCY_LAND");
    assert(upper_snake("EmergencyLand"@) =~= "EMERGENCY_LAND"@);
}

/// The label of `Landed` is its name in upper snake case.
proof fn lemma_snake_landed()
    ensures
        upper_snake("Landed"@) == "LANDED"@,
{
    reveal_with_fuel(snake_rest, 16);
    reveal_strlit("Landed");
    reveal_strlit("LANDED");
    assert(upper_snake("Landed"@) =~= "LANDED"@);
}

/// The label of `Collision` is its name in upper snake case.
proof fn lemma_snake_collision()
    ensures
        upper_snake("Collision"@) == "COLLISION"@,
{
    reveal_with_fuel(snake_rest, 16);
    reveal_strlit("Collision");
    reveal_strlit("COLLISION");
    assert(upper_snake("Collision"@) =~= "COLLISION"@);
}

/// Distinct modes have distinct labels.
proof fn lemma_labels_distinct(m: FlightMode, n: FlightMode)
    ensures
        mode_label(m) == mode_label(n) ==> m == n,
{
    reveal_strlit("DISARMED");
    reveal_strlit("ARMED");
    reveal_strlit("TAKEOFF");
    reveal_strlit("HOVER");
    reveal_strlit("WAYPOINT_FOLLOW");
    reveal_strlit("RETURN_TO_HOME");
    reveal_strlit("EMERGENCY_LAND");
    reveal_strlit("LANDED");
    reveal_strlit("COLLISION");
    assert("DISARMED"@.len() == 8 && "DISARMED"@[0] == 'D' && "DISARMED"@[1] == 'I');
    assert("ARMED"@.len() == 5 && "ARMED"@[0] == 'A' && "ARMED"@[1] == 'R');
    assert("TAKEOFF"@.len() == 7 && "TAKEOFF"@[0] == 'T' && "TAKEOFF"@[1] == 'A');
    assert("HOVER"@.len() == 5 && "HOVER"@[0] == 'H' && "HOVER"@[1] == 'O');
    assert("WAYPOINT_FOLLOW"@.len() == 15 && "WAYPOINT_FOLLOW"@[0] == 'W' && "WAYPOINT_FOLLOW"@[1] == 'A');
    assert("RETURN_TO_HOME"@.len() == 14 && "RETURN_TO_HOME"@[0] == 'R' && "RETURN_TO_HOME"@[1] == 'E');
    assert("EMERGENCY_LAND"@.len() == 14 && "EMERGENCY_LAND"@[0] == 'E' && "EMERGENCY_LAND"@[1] == 'M');
    assert("LANDED"@.len() == 6 && "LANDED"@[0] == 'L' && "LANDED"@[1] == 'A');
    assert("COLLISION"@.len() == 9 && "COLLISION"@[0] == 'C' && "COLLISION"@[1] == 'O');
}

} // verus!
