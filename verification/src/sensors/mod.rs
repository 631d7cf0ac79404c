//! Sensor fault modes and the fault bookkeeping of the sensor suite: which faults are
//! injected, which fault each sensor reports, and whether its reading stays valid.

use vstd::prelude::*;
use vstd::string::*;
use crate::text::{lowercase, to_lowercase};

verus! {

broadcast use vstd::string::group_string_axioms;

/// Fault modes supported across the sensor suite.
#[derive(Debug, Clone, Copy, PartialEq, Eq, Hash, Structural)]
pub enum FaultType {
    GpsDrift,
    GpsDropout,
    ImuBias,
    CompassFailure,
    AltimeterDrift,
    LidarBlindSpot,
    ExcessiveNoise,
}

/// The display label of a fault.
pub open spec fn fault_label(f: FaultType) -> Seq<char> {
    match f {
        FaultType::GpsDrift => "GPS Drift"@,
        FaultType::GpsDropout => "GPS Dropout"@,
        FaultType::ImuBias => "IMU Bias"@,
        FaultType::CompassFailure => "Compass Failure"@,
        FaultType::AltimeterDrift => "Altimeter Drift"@,
        FaultType::LidarBlindSpot => "LiDAR Blind Spot"@,
        FaultType::ExcessiveNoise => "Excessive Sensor Noise"@,
    }
}

/// The fault a lower-case command name selects; `lidar_failure` is another name for the
/// LiDAR blind spot.
pub open spec fn fault_named(name: Seq<char>) -> Option<FaultType> {
    if name == "gps_drift"@ {
        Some(FaultType::GpsDrift)
    } else if name == "gps_dropout"@ {
        Some(FaultType::GpsDropout)
    } else if name == "imu_bias"@ {
        Some(FaultType::ImuBias)
    } else if name == "compass_failure"@ {
        Some(FaultType::CompassFailure)
    } else if name == "altimeter_drift"@ {
        Some(FaultType::AltimeterDrift)
    } else if name == "lidar_blind_spot"@ || name == "lidar_failure"@ {
        Some(FaultType::LidarBlindSpot)
    } else if name == "excessive_noise"@ {
        Some(FaultType::ExcessiveNoise)
    } else {
        None
    }
}

impl FaultType {
    /// The display label, such as `GPS Drift`.
    pub fn label(&self) -> (s: String)
        ensures
            s@ == fault_label(*self),
    {
        match self {
            FaultType::GpsDrift => "GPS Drift".to_string(),
            FaultType::GpsDropout => "GPS Dropout".to_string(),
            FaultType::ImuBias => "IMU Bias".to_string(),
            FaultType::CompassFailure => "Compass Failure".to_string(),
            FaultType::AltimeterDrift => "Altimeter Drift".to_string(),
            FaultType::LidarBlindSpot => "LiDAR Blind Spot".to_string(),
            FaultType::ExcessiveNoise => "Excessive Sensor Noise".to_string(),
        }
    }

    /// The fault a command names, case-insensitively (the name is lower-cased first);
    /// an unknown name is refused with `Unknown fault type: <lower-cased name>`.
    pub fn from_name(name: &str) -> (r: Result<FaultType, String>)
        ensures
            fault_named(lowercase(name@)) matches Some(f) ==> r == Ok::<FaultType, String>(f),
            fault_named(lowercase(name@)) is None ==> (r matches Err(e) && e@ == "Unknown fault type: "@
                + lowercase(name@)),
    {
        let lower = to_lowercase(name);
        if lower == "gps_drift".to_string() {
            Ok(FaultType::GpsDrift)
        } else if lower == "gps_dropout".to_string() {
            Ok(FaultType::GpsDropout)
        } else if lower == "imu_bias".to_string() {
            Ok(FaultType::ImuBias)
        } else if lower == "compass_failure".to_string() {
            Ok(FaultType::CompassFailure)
        } else if lower == "altimeter_drift".to_string() {
            Ok(FaultType::AltimeterDrift)
        } else if lower == "lidar_blind_spot".to_string() || lower == "lidar_failure".to_string() {
            Ok(FaultType::LidarBlindSpot)
        } else if lower == "excessive_noise".to_string() {
            Ok(FaultType::ExcessiveNoise)
        } else {
            let mut msg = "Unknown fault type: ".to_string();
            msg.append(lower.as_str());
            Err(msg)
        }
    }
}

/// The sensors of the suite.
#[derive(Debug, Clone, Copy, PartialEq, Eq, Structural)]
pub enum SensorKind {
    Gps,
    Imu,
    Compass,
    Altimeter,
    Lidar,
}

/// The fault a sensor reports while `faults` are injected: its own fault first (for the
/// GPS a dropout before a drift), then excessive noise, else none.
pub open spec fn reported_fault(faults: Seq<FaultType>, kind: SensorKind) -> Option<FaultType> {
    match kind {
        SensorKind::Gps => if faults.contains(FaultType::GpsDropout) {
            Some(FaultType::GpsDropout)
        } else if faults.contains(FaultType::GpsDrift) {
            Some(FaultType::GpsDrift)
        } else if faults.contains(FaultType::ExcessiveNoise) {
            Some(FaultType::ExcessiveNoise)
        } else {
            None
        },
        SensorKind::Imu => own_or_noise(faults, FaultType::ImuBias),
        SensorKind::Compass => own_or_noise(faults, FaultType::CompassFailure),
        SensorKind::Altimeter => own_or_noise(faults, FaultType::AltimeterDrift),
        SensorKind::Lidar => own_or_noise(faults, FaultType::LidarBlindSpot),
    }
}

/// A sensor's own fault when injected, else excessive noise when injected, else none.
pub open spec fn own_or_noise(faults: Seq<FaultType>, own: FaultType) -> Option<FaultType> {
    if faults.contains(own) {
        Some(own)
    } else if faults.contains(FaultType::ExcessiveNoise) {
        Some(FaultType::ExcessiveNoise)
    } else {
        None
    }
}

/// A reading stays valid unless its sensor has lost its signal: a GPS dropout or a
/// compass failure.
pub open spec fn reading_valid(faults: Seq<FaultType>, kind: SensorKind) -> bool {
    match kind {
        SensorKind::Gps => !faults.contains(FaultType::GpsDropout),
        SensorKind::Compass => !faults.contains(FaultType::CompassFailure),
        _ => true,
    }
}

/// The fault bookkeeping of the integrated sensor suite.
#[derive(Debug, Clone)]
pub struct SensorSuite {
    pub active_faults: Vec<FaultType>,
}

impl View for SensorSuite {
    type V = Seq<FaultType>;

    open spec fn view(&self) -> Seq<FaultType> {
        self.active_faults@
    }
}

impl SensorSuite {
    /// A suite with no fault injected.
    pub fn new() -> (s: Self)
        ensures
            s@ == Seq::<FaultType>::empty(),
    {
        SensorSuite { active_faults: Vec::new() }
    }

    /// Whether a fault is injected.
    pub fn has_fault(&self, fault: FaultType) -> (b: bool)
        ensures
            b == self@.contains(fault),
    {
        let mut i: usize = 0;
        while i < self.active_faults.len()
            invariant
                0 <= i <= self.active_faults.len(),
                forall|j: int| 0 <= j < i ==> self@[j] != fault,
            decreases self.active_faults.len() - i,
        {
            if self.active_faults[i] == fault {
                assert(self@[i as int] == fault);
                return true;
            }
            i = i + 1;
        }
        false
    }

    /// Injects a fault; a fault already injected is not added twice.
    pub fn inject_fault(&mut self, fault: FaultType)
        ensures
            final(self)@ == (if old(self)@.contains(fault) {
                old(self)@
            } else {
                old(self)@.push(fault)
            }),
    {
        if !self.has_fault(fault) {
            self.active_faults.push(fault);
        }
    }

    /// Clears every injection of a fault.
    pub fn clear_fault(&mut self, fault: FaultType)
        ensures
            final(self)@ == old(self)@.filter(|f: FaultType| f != fault),
    {
        let ghost pred = |f: FaultType| f != fault;
        let mut kept: Vec<FaultType> = Vec::new();
        let mut i: usize = 0;
        while i < self.active_faults.len()
            invariant
                0 <= i <= self.active_faults.len(),
                self@ == old(self)@,
                pred == (|f: FaultType| f != fault),
                kept@ == old(self)@.take(i as int).filter(pred),
            decreases self.active_faults.len() - i,
        {
            let f = self.active_faults[i];
            if f != fault {
                kept.push(f);
            }
            proof {
                let s = old(self)@;
                reveal(Seq::filter);
                assert(s.take(i + 1).drop_last() =~= s.take(i as int));
                assert(s.take(i + 1).last() == s[i as int]);
            }
            i = i + 1;
        }
        proof {
            assert(old(self)@.take(i as int) =~= old(self)@);
        }
        self.active_faults = kept;
    }

    /// Clears every fault.
    pub fn clear_all_faults(&mut self)
        ensures
            final(self)@ == Seq::<FaultType>::empty(),
    {
        self.active_faults.clear();
    }

    /// The fault a sensor reports with the injected faults.
    pub fn reported_fault(&self, kind: SensorKind) -> (r: Option<FaultType>)
        ensures
            r == reported_fault(self@, kind),
    {
        match kind {
            SensorKind::Gps => if self.has_fault(FaultType::GpsDropout) {
                Some(FaultType::GpsDropout)
            } else if self.has_fault(FaultType::GpsDrift) {
                Some(FaultType::GpsDrift)
            } else if self.has_fault(FaultType::ExcessiveNoise) {
                Some(FaultType::ExcessiveNoise)
            } else {
                None
            },
            SensorKind::Imu => self.own_or_noise(FaultType::ImuBias),
            SensorKind::Compass => self.own_or_noise(FaultType::CompassFailure),
            SensorKind::Altimeter => self.own_or_noise(FaultType::AltimeterDrift),
            SensorKind::Lidar => self.own_or_noise(FaultType::LidarBlindSpot),
        }
    }

    fn own_or_noise(&self, own: FaultType) -> (r: Option<FaultType>)
        ensures
            r == own_or_noise(self@, own),
    {
        if self.has_fault(own) {
            Some(own)
        } else if self.has_fault(FaultType::ExcessiveNoise) {
            Some(FaultType::ExcessiveNoise)
        } else {
            None
        }
    }

    /// Whether a sensor's reading is valid with the injected faults.
    pub fn reading_valid(&self, kind: SensorKind) -> (b: bool)
        ensures
            b == reading_valid(self@, kind),
    {
        match kind {
            SensorKind::Gps => !self.has_fault(FaultType::GpsDropout),
            SensorKind::Compass => !self.has_fault(FaultType::CompassFailure),
            _ => true,
        }
    }
}

/// Injecting a fault makes it active, and injecting it again changes nothing.
pub proof fn law_inject_then_active(faults: Seq<FaultType>, f: FaultType)
    ensures
        (if faults.contains(f) { faults } else { faults.push(f) }).contains(f),
        ({
            let once = if faults.contains(f) { faults } else { faults.push(f) };
            (if once.contains(f) { once } else { once.push(f) }) == once
        }),
{
    if !faults.contains(f) {
        assert(faults.push(f)[faults.len() as int] == f);
    }
}

/// Clearing a fault makes it inactive and leaves every other fault as it was.
pub proof fn law_clear_then_inactive(faults: Seq<FaultType>, f: FaultType, other: FaultType)
    requires
        other != f,
    ensures
        !faults.filter(|g: FaultType| g != f).contains(f),
        faults.filter(|g: FaultType| g != f).contains(other) == faults.contains(other),
{
    let pred = |g: FaultType| g != f;
    let r = faults.filter(pred);
    if r.contains(f) {
        let k = choose|k: int| 0 <= k < r.len() && r[k] == f;
        faults.lemma_filter_pred(pred, k);
    }
    if faults.contains(other) {
        let k = choose|k: int| 0 <= k < faults.len() && faults[k] == other;
        faults.lemma_filter_contains(pred, k);
    }
    if r.contains(other) {
        faults.lemma_filter_contains_rev(pred, other);
    }
}

/// Injecting never lists a fault twice.
pub proof fn law_inject_keeps_no_duplicates(faults: Seq<FaultType>, f: FaultType)
    requires
        faults.no_duplicates(),
    ensures
        (if faults.contains(f) { faults } else { faults.push(f) }).no_duplicates(),
{
    if !faults.contains(f) {
        let r = faults.push(f);
        assert forall|i: int, j: int| 0 <= i < r.len() && 0 <= j < r.len() && i != j implies r[i] != r[j] by {
            if i == faults.len() {
                assert(r[j] == faults[j]);
            } else if j == faults.len() {
                assert(r[i] == faults[i]);
            }
        }
    }
}


/// The command name of each fault, as the fault commands spell it.
pub open spec fn fault_command_name(f: FaultType) -> Seq<char> {
    match f {
        FaultType::GpsDrift => "gps_drift"@,
        FaultType::GpsDropout => "gps_dropout"@,
        FaultType::ImuBias => "imu_bias"@,
        FaultType::CompassFailure => "compass_failure"@,
        FaultType::AltimeterDrift => "altimeter_drift"@,
        FaultType::LidarBlindSpot => "lidar_blind_spot"@,
        FaultType::ExcessiveNoise => "excessive_noise"@,
    }
}

/// Naming round-trips: every fault's command name selects that very fault, so every
/// fault can be injected and cleared by name; and two different names select the same
/// fault only for the LiDAR blind spot, whose other name is `lidar_failure`.
pub proof fn law_fault_names_round_trip(f: FaultType, a: Seq<char>, b: Seq<char>)
    ensures
        fault_named(fault_command_name(f)) == Some(f),
        fault_named(a) is Some && fault_named(a) == fault_named(b) && a != b ==> fault_named(a)
            == Some(FaultType::LidarBlindSpot) && (a == "lidar_failure"@ || b == "lidar_failure"@),
{
    reveal_strlit("gps_drift");
    reveal_strlit("gps_dropout");
    reveal_strlit("imu_bias");
    reveal_strlit("compass_failure");
    reveal_strlit("altimeter_drift");
    reveal_strlit("lidar_blind_spot");
    reveal_strlit("lidar_failure");
    reveal_strlit("excessive_noise");
    assert("gps_drift"@.len() == 9 && "gps_drift"@[0] == 'g');
    assert("gps_dropout"@.len() == 11 && "gps_dropout"@[0] == 'g');
    assert("imu_bias"@.len() == 8 && "imu_bias"@[0] == 'i');
    assert("compass_failure"@.len() == 15 && "compass_failure"@[0] == 'c');
    assert("altimeter_drift"@.len() == 15 && "altimeter_drift"@[0] == 'a');
    assert("lidar_blind_spot"@.len() == 16 && "lidar_blind_spot"@[0] == 'l');
    assert("lidar_failure"@.len() == 13 && "lidar_failure"@[0] == 'l');
    assert("excessive_noise"@.len() == 15 && "excessive_noise"@[0] == 'e');
}

/// Every sensor reports its own fault whenever that fault is injected (the GPS reports a
/// dropout over a drift); a sensor without a fault of its own reports excessive noise when
/// that is injected and nothing otherwise; and whatever a sensor reports is injected.
pub proof fn law_sensor_reports_own_fault(faults: Seq<FaultType>, k: SensorKind)
    ensures
        faults.contains(FaultType::GpsDropout) ==> reported_fault(faults, SensorKind::Gps) == Some(
            FaultType::GpsDropout,
        ),
        faults.contains(FaultType::GpsDrift) && !faults.contains(FaultType::GpsDropout)
            ==> reported_fault(faults, SensorKind::Gps) == Some(FaultType::GpsDrift),
        faults.contains(FaultType::ImuBias) ==> reported_fault(faults, SensorKind::Imu) == Some(
            FaultType::ImuBias,
        ),
        faults.contains(FaultType::CompassFailure) ==> reported_fault(faults, SensorKind::Compass)
            == Some(FaultType::CompassFailure),
        faults.contains(FaultType::AltimeterDrift) ==> reported_fault(faults, SensorKind::Altimeter)
            == Some(FaultType::AltimeterDrift),
        faults.contains(FaultType::LidarBlindSpot) ==> reported_fault(faults, SensorKind::Lidar)
            == Some(FaultType::LidarBlindSpot),
        !faults.contains(FaultType::GpsDropout) && !faults.contains(FaultType::GpsDrift)
            ==> reported_fault(faults, SensorKind::Gps) == (if faults.contains(FaultType::ExcessiveNoise) {
            Some(FaultType::ExcessiveNoise)
        } else {
            None
        }),
        !faults.contains(FaultType::ImuBias) ==> reported_fault(faults, SensorKind::Imu) == (if faults.contains(
            FaultType::ExcessiveNoise,
        ) {
            Some(FaultType::ExcessiveNoise)
        } else {
            None
        }),
        !faults.contains(FaultType::CompassFailure) ==> reported_fault(faults, SensorKind::Compass) == (
        if faults.contains(FaultType::ExcessiveNoise) {
            Some(FaultType::ExcessiveNoise)
        } else {
            None
        }),
        !faults.contains(FaultType::AltimeterDrift) ==> reported_fault(faults, SensorKind::Altimeter) == (
        if faults.contains(FaultType::ExcessiveNoise) {
            Some(FaultType::ExcessiveNoise)
        } else {
            None
        }),
        !faults.contains(FaultType::LidarBlindSpot) ==> reported_fault(faults, SensorKind::Lidar) == (
        if faults.contains(FaultType::ExcessiveNoise) {
            Some(FaultType::ExcessiveNoise)
        } else {
            None
        }),
        reported_fault(faults, k) matches Some(f) ==> faults.contains(f),
{
}


/// A display label in command-name form: lower case, with underscores for spaces.
pub open spec fn command_form(label: Seq<char>) -> Seq<char> {
    label.map_values(
        |c: char|
            if c == ' ' {
                '_'
            } else if 'A' <= c && c <= 'Z' {
                ((c as u32) + 32) as char
            } else {
                c
            },
    )
}

/// Each fault's command name is its display label in command-name form, except for
/// excessive noise, whose label names the sensors ("Excessive Sensor Noise") and whose
/// command name does not.
pub proof fn law_fault_label_names_fault(f: FaultType)
    ensures
        f != FaultType::ExcessiveNoise ==> command_form(fault_label(f)) == fault_command_name(f),
        f == FaultType::ExcessiveNoise ==> command_form(fault_label(f)) == "excessive_sensor_noise"@,
{
    match f {
        FaultType::GpsDrift => lemma_command_form_gps_drift(),
        FaultType::GpsDropout => lemma_command_form_gps_dropout(),
        FaultType::ImuBias => lemma_command_form_imu_bias(),
        FaultType::CompassFailure => lemma_command_form_compass_failure(),
        FaultType::AltimeterDrift => lemma_command_form_altimeter_drift(),
        FaultType::LidarBlindSpot => lemma_command_form_lidar_blind_spot(),
        FaultType::ExcessiveNoise => lemma_command_form_excessive_noise(),
    }
}

proof fn lemma_command_form_gps_drift()
    ensures
        command_form("GPS Drift"@) == "gps_drift"@,
{
    reveal_strlit("GPS Drift");
    reveal_strlit("gps_drift");
    assert(command_form("GPS Drift"@) =~= "gps_drift"@);
}

proof fn lemma_command_form_gps_dropout()
    ensures
        command_form("GPS Dropout"@) == "gps_dropout"@,
{
    reveal_strlit("GPS Dropout");
    reveal_strlit("gps_dropout");
    assert(command_form("GPS Dropout"@) =~= "gps_dropout"@);
}

proof fn lemma_command_form_imu_bias()
    ensures
        command_form("IMU Bias"@) == "imu_bias"@,
{
    reveal_strlit("IMU Bias");
    reveal_strlit("imu_bias");
    assert(command_form("IMU Bias"@) =~= "imu_bias"@);
}

proof fn lemma_command_form_compass_failure()
    ensures
        command_form("Compass Failure"@) == "compass_failure"@,
{
    reveal_strlit("Compass Failure");
    reveal_strlit("compass_failure");
    assert(command_form("Compass Failure"@) =~= "compass_failure"@);
}

proof fn lemma_command_form_altimeter_drift()
    ensures
        command_form("Altimeter Drift"@) == "altimeter_drift"@,
{
    reveal_strlit("Altimeter Drift");
    reveal_strlit("altimeter_drift");
    assert(command_form("Altimeter Drift"@) =~= "altimeter_drift"@);
}

proof fn lemma_command_form_lidar_blind_spot()
    ensures
        command_form("LiDAR Blind Spot"@) == "lidar_blind_spot"@,
{
    reveal_strlit("LiDAR Blind Spot");
    reveal_strlit("lidar_blind_spot");
    assert(command_form("LiDAR Blind Spot"@) =~= "lidar_blind_spot"@);
}

proof fn lemma_command_form_excessive_noise()
    ensures
        command_form("Excessive Sensor Noise"@) == "excessive_sensor_noise"@,
{
    reveal_strlit("Excessive Sensor Noise");
    reveal_strlit("excessive_sensor_noise");
    assert(command_form("Excessive Sensor Noise"@) =~= "excessive_sensor_noise"@);
}


/// A reading loses its validity only when its own sensor has lost its signal: the GPS
/// under a dropout, the compass under a failure; the IMU, altimeter and LiDAR readings
/// stay valid under every fault, and no other fault invalidates the GPS or the compass.
pub proof fn law_validity_lost_only_to_signal_loss(faults: Seq<FaultType>)
    ensures
        reading_valid(faults, SensorKind::Gps) <==> !faults.contains(FaultType::GpsDropout),
        reading_valid(faults, SensorKind::Compass) <==> !faults.contains(FaultType::CompassFailure),
        reading_valid(faults, SensorKind::Imu),
        reading_valid(faults, SensorKind::Altimeter),
        reading_valid(faults, SensorKind::Lidar),
{
}

} // verus!
