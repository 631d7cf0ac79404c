//! Alert data models, severity classifications, and active alert state management.

use vstd::prelude::*;
use vstd::string::*;
use crate::text::{format_sequence_id, lemma_sequence_id_injective, sequence_id};

verus! {

broadcast use vstd::string::group_string_axioms;

/// How serious an alert is.
#[derive(Debug, Clone, Copy, PartialEq, Eq, Structural)]
pub enum AlertSeverity {
    Info,
    Warning,
    Critical,
}

/// The display label of a severity.
pub open spec fn severity_label(s: AlertSeverity) -> Seq<char> {
    match s {
        AlertSeverity::Info => "INFO"@,
        AlertSeverity::Warning => "WARNING"@,
        AlertSeverity::Critical => "CRITICAL"@,
    }
}

impl AlertSeverity {
    /// The display label: `INFO`, `WARNING` or `CRITICAL`.
    pub fn label(&self) -> (s: String)
        ensures
            s@ == severity_label(*self),
    {
        match self {
            AlertSeverity::Info => "INFO".to_string(),
            AlertSeverity::Warning => "WARNING".to_string(),
            AlertSeverity::Critical => "CRITICAL".to_string(),
        }
    }
}

/// Alert event fired when safety margins, sensor fidelities, or flight envelopes are violated.
#[derive(Debug)]
pub struct Alert {
    pub id: String,
    pub alert_type: String,
    pub severity: AlertSeverity,
    pub timestamp: String,
    pub description: String,
    pub suggested_action: String,
    pub related_mission_event: Option<String>,
    pub acknowledged: bool,
}

/// The mathematical content of an [`Alert`].
pub struct AlertView {
    pub id: Seq<char>,
    pub alert_type: Seq<char>,
    pub severity: AlertSeverity,
    pub timestamp: Seq<char>,
    pub description: Seq<char>,
    pub suggested_action: Seq<char>,
    pub related_mission_event: Option<Seq<char>>,
    pub acknowledged: bool,
}

/// The view of an optional string.
pub open spec fn opt_view(o: Option<String>) -> Option<Seq<char>> {
    match o {
        Some(s) => Some(s@),
        None => None,
    }
}

impl View for Alert {
    type V = AlertView;

    open spec fn view(&self) -> AlertView {
        AlertView {
            id: self.id@,
            alert_type: self.alert_type@,
            severity: self.severity,
            timestamp: self.timestamp@,
            description: self.description@,
            suggested_action: self.suggested_action@,
            related_mission_event: opt_view(self.related_mission_event),
            acknowledged: self.acknowledged,
        }
    }
}

/// The views of a sequence of alerts.
pub open spec fn alerts_view(s: Seq<Alert>) -> Seq<AlertView> {
    s.map_values(|a: Alert| a@)
}

/// Copies an optional string.
pub fn copy_opt_string(o: &Option<String>) -> (r: Option<String>)
    ensures
        opt_view(r) == opt_view(*o),
{
    match o {
        Some(s) => Some(s.clone()),
        None => None,
    }
}

impl Alert {
    /// A field-by-field copy of the alert.
    pub fn duplicate(&self) -> (r: Alert)
        ensures
            r@ == self@,
    {
        Alert {
            id: self.id.clone(),
            alert_type: self.alert_type.clone(),
            severity: self.severity,
            timestamp: self.timestamp.clone(),
            description: self.description.clone(),
            suggested_action: self.suggested_action.clone(),
            related_mission_event: copy_opt_string(&self.related_mission_event),
            acknowledged: self.acknowledged,
        }
    }
}

/// The identifier of the `n`-th alert ever issued by a manager: `ALT-0001`, `ALT-0002`, ...
pub open spec fn alert_id(n: nat) -> Seq<char> {
    sequence_id("ALT"@, n)
}

/// Whether some alert of `s` has the given type.
pub open spec fn has_alert_type(s: Seq<AlertView>, alert_type: Seq<char>) -> bool {
    exists|i: int| 0 <= i < s.len() && #[trigger] s[i].alert_type == alert_type
}

/// No two alerts of `s` share a type.
pub open spec fn types_unique(s: Seq<AlertView>) -> bool {
    forall|i: int, j: int|
        0 <= i < s.len() && 0 <= j < s.len() && i != j ==> #[trigger] s[i].alert_type
            != #[trigger] s[j].alert_type
}

/// No two alerts of `s` share an identifier.
pub open spec fn ids_unique(s: Seq<AlertView>) -> bool {
    forall|i: int, j: int|
        0 <= i < s.len() && 0 <= j < s.len() && i != j ==> #[trigger] s[i].id != #[trigger] s[j].id
}

/// The mathematical state of an [`AlertManager`].
pub struct AlertManagerView {
    pub active: Seq<AlertView>,
    pub history: Seq<AlertView>,
    /// How many alerts this manager has issued since it was created.
    pub issued: nat,
}

/// The alert that a trigger request produces when it is accepted.
pub open spec fn issued_alert(
    issued: nat,
    alert_type: Seq<char>,
    severity: AlertSeverity,
    timestamp: Seq<char>,
    description: Seq<char>,
    suggested_action: Seq<char>,
    related_mission_event: Option<Seq<char>>,
) -> AlertView {
    AlertView {
        id: alert_id(issued + 1),
        alert_type,
        severity,
        timestamp,
        description,
        suggested_action,
        related_mission_event,
        acknowledged: false,
    }
}

/// Triggering an alert: refused (no change, no alert) while an alert of the same type is
/// active; otherwise a new alert with the next identifier joins both the active list and
/// the history.
pub open spec fn trigger_outcome(
    m: AlertManagerView,
    alert_type: Seq<char>,
    severity: AlertSeverity,
    timestamp: Seq<char>,
    description: Seq<char>,
    suggested_action: Seq<char>,
    related_mission_event: Option<Seq<char>>,
) -> (AlertManagerView, Option<AlertView>) {
    if has_alert_type(m.active, alert_type) {
        (m, None)
    } else {
        let a = issued_alert(
            m.issued,
            alert_type,
            severity,
            timestamp,
            description,
            suggested_action,
            related_mission_event,
        );
        (AlertManagerView { active: m.active.push(a), history: m.history.push(a), issued: m.issued + 1 }, Some(a))
    }
}

/// The active alerts left after clearing every alert of a type.
pub open spec fn without_type(s: Seq<AlertView>, alert_type: Seq<char>) -> Seq<AlertView> {
    s.filter(|a: AlertView| a.alert_type != alert_type)
}

/// Clearing an alert type drops its active alerts; the history keeps them.
pub open spec fn clear_outcome(m: AlertManagerView, alert_type: Seq<char>) -> AlertManagerView {
    AlertManagerView { active: without_type(m.active, alert_type), ..m }
}

/// `a` marked as acknowledged.
pub open spec fn acknowledged(a: AlertView) -> AlertView {
    AlertView { acknowledged: true, ..a }
}

/// Index of the first alert of `s` with the given identifier, if any.
pub open spec fn first_with_id(s: Seq<AlertView>, id: Seq<char>) -> Option<int>
    decreases s.len(),
{
    if s.len() == 0 {
        None
    } else if s[0].id == id {
        Some(0)
    } else {
        match first_with_id(s.drop_first(), id) {
            Some(i) => Some(i + 1),
            None => None,
        }
    }
}

/// Acknowledging marks the first alert with that identifier in a list; nothing else changes.
pub open spec fn acknowledge_in(s: Seq<AlertView>, id: Seq<char>) -> Seq<AlertView> {
    match first_with_id(s, id) {
        Some(i) => s.update(i, acknowledged(s[i])),
        None => s,
    }
}

/// Acknowledging an identifier in both the active list and the history.
pub open spec fn acknowledge_outcome(m: AlertManagerView, id: Seq<char>) -> AlertManagerView {
    AlertManagerView {
        active: acknowledge_in(m.active, id),
        history: acknowledge_in(m.history, id),
        issued: m.issued,
    }
}

/// Every alert of `sub` appears in `sup`.
pub open spec fn all_in(sub: Seq<AlertView>, sup: Seq<AlertView>) -> bool {
    forall|i: int| 0 <= i < sub.len() ==> sup.contains(#[trigger] sub[i])
}

/// Alert manager tracking active and historical alerts during simulation.
#[derive(Debug)]
pub struct AlertManager {
    pub active_alerts: Vec<Alert>,
    pub alert_history: Vec<Alert>,
    next_id: usize,
}

impl View for AlertManager {
    type V = AlertManagerView;

    closed spec fn view(&self) -> AlertManagerView {
        AlertManagerView {
            active: alerts_view(self.active_alerts@),
            history: alerts_view(self.alert_history@),
            issued: self.next_id as nat,
        }
    }
}

impl AlertManager {
    /// A manager with no alerts that has issued none.
    pub fn new() -> (m: Self)
        ensures
            m@.active == Seq::<AlertView>::empty(),
            m@.history == Seq::<AlertView>::empty(),
            m@.issued == 0,
    {
        let m = AlertManager { active_alerts: Vec::new(), alert_history: Vec::new(), next_id: 0 };
        assert(m@.active =~= Seq::<AlertView>::empty());
        assert(m@.history =~= Seq::<AlertView>::empty());
        m
    }

    /// How many alerts this manager has issued so far.
    pub fn issued_count(&self) -> (n: usize)
        ensures
            n == self@.issued,
    {
        self.next_id
    }

    /// Whether an alert of the given type is active.
    pub fn is_type_active(&self, alert_type: &str) -> (b: bool)
        ensures
            b == has_alert_type(self@.active, alert_type@),
    {
        let t = alert_type.to_string();
        let mut i: usize = 0;
        while i < self.active_alerts.len()
            invariant
                0 <= i <= self.active_alerts.len(),
                t@ == alert_type@,
                forall|j: int| 0 <= j < i ==> self@.active[j].alert_type != alert_type@,
            decreases self.active_alerts.len() - i,
        {
            if self.active_alerts[i].alert_type == t {
                assert(self@.active[i as int].alert_type == alert_type@);
                return true;
            }
            i = i + 1;
        }
        false
    }

    /// Fires an alert unless one of the same type is already active. The new alert gets
    /// the next identifier (`ALT-0001`, `ALT-0002`, ...), is unacknowledged, and joins both
    /// the active list and the history; a copy of it is returned.
    pub fn trigger_alert(
        &mut self,
        alert_type: &str,
        severity: AlertSeverity,
        timestamp: &str,
        description: &str,
        suggested_action: &str,
        related_mission_event: Option<String>,
    ) -> (r: Option<Alert>)
        requires
            old(self)@.issued < usize::MAX,
        ensures
            ({
                let (m, a) = trigger_outcome(
                    old(self)@,
                    alert_type@,
                    severity,
                    timestamp@,
                    description@,
                    suggested_action@,
                    opt_view(related_mission_event),
                );
                &&& final(self)@ == m
                &&& r is Some <==> a is Some
                &&& r is Some ==> r->0@ == a->0
            }),
    {
        // Prevent duplicate spam of identical alert within active list
        if self.is_type_active(alert_type) {
            return None;
        }
        self.next_id = self.next_id + 1;
        let alert = Alert {
            id: format_sequence_id("ALT", self.next_id),
            alert_type: alert_type.to_string(),
            severity,
            timestamp: timestamp.to_string(),
            description: description.to_string(),
            suggested_action: suggested_action.to_string(),
            related_mission_event,
            acknowledged: false,
        };
        proof { reveal_strlit("ALT"); }
        let ghost a = alert@;
        self.active_alerts.push(alert.duplicate());
        self.alert_history.push(alert.duplicate());
        proof {
            assert(self@.active =~= old(self)@.active.push(a));
            assert(self@.history =~= old(self)@.history.push(a));
        }
        Some(alert)
    }

    /// Drops every active alert of the given type; the history is kept.
    pub fn clear_alert_type(&mut self, alert_type: &str)
        ensures
            final(self)@ == clear_outcome(old(self)@, alert_type@),
    {
        let t = alert_type.to_string();
        let ghost pred = |a: AlertView| a.alert_type != alert_type@;
        let mut kept: Vec<Alert> = Vec::new();
        let mut i: usize = 0;
        while i < self.active_alerts.len()
            invariant
                0 <= i <= self.active_alerts.len(),
                t@ == alert_type@,
                pred == (|a: AlertView| a.alert_type != alert_type@),
                self@ == old(self)@,
                alerts_view(kept@) == old(self)@.active.take(i as int).filter(pred),
            decreases self.active_alerts.len() - i,
        {
            let ghost before = kept@;
            let keep = !(self.active_alerts[i].alert_type == t);
            if keep {
                kept.push(self.active_alerts[i].duplicate());
            }
            proof {
                let s = old(self)@.active;
                reveal(Seq::filter);
                assert(s.take(i + 1).drop_last() =~= s.take(i as int));
                assert(s.take(i + 1).last() == s[i as int]);
                assert(s[i as int] == self.active_alerts@[i as int]@);
                assert(keep == pred(s[i as int]));
                assert(s.take(i + 1).filter(pred) == (if pred(s[i as int]) {
                    s.take(i as int).filter(pred).push(s[i as int])
                } else {
                    s.take(i as int).filter(pred)
                }));
                if keep {
                    assert(alerts_view(kept@) =~= alerts_view(before).push(s[i as int]));
                } else {
                    assert(alerts_view(kept@) =~= alerts_view(before));
                }
            }
            i = i + 1;
        }
        self.active_alerts = kept;
        proof {
            assert(old(self)@.active.take(i as int) =~= old(self)@.active);
            assert(self@ =~= clear_outcome(old(self)@, alert_type@));
        }
    }

    /// Marks the first alert with the given identifier as acknowledged, in the active
    /// list and in the history.
    pub fn acknowledge(&mut self, alert_id: &str)
        ensures
            final(self)@ == acknowledge_outcome(old(self)@, alert_id@),
    {
        let id = alert_id.to_string();
        acknowledge_first(&mut self.active_alerts, &id);
        acknowledge_first(&mut self.alert_history, &id);
    }

    /// Empties both the active list and the history.
    pub fn clear_all(&mut self)
        ensures
            final(self)@.active == Seq::<AlertView>::empty(),
            final(self)@.history == Seq::<AlertView>::empty(),
            final(self)@.issued == old(self)@.issued,
    {
        self.active_alerts.clear();
        self.alert_history.clear();
        assert(self@.active =~= Seq::<AlertView>::empty());
        assert(self@.history =~= Seq::<AlertView>::empty());
    }
}

/// Marks the first alert of `v` whose identifier is `id` as acknowledged.
fn acknowledge_first(v: &mut Vec<Alert>, id: &String)
    ensures
        alerts_view(final(v)@) == acknowledge_in(alerts_view(old(v)@), id@),
{
    let ghost s = alerts_view(old(v)@);
    let mut i: usize = 0;
    while i < v.len()
        invariant
            0 <= i <= v.len(),
            v@ == old(v)@,
            s == alerts_view(v@),
            forall|j: int| 0 <= j < i ==> s[j].id != id@,
        decreases v.len() - i,
    {
        if v[i].id == *id {
            proof { lemma_first_with_id_at(s, id@, i as int); }
            let mut a = v[i].duplicate();
            a.acknowledged = true;
            v.set(i, a);
            assert(alerts_view(v@) =~= s.update(i as int, acknowledged(s[i as int])));
            return;
        }
        i = i + 1;
    }
    proof { lemma_first_with_id_none(s, id@); }
}

/// The first index with an identifier is the one before which no alert carries it.
proof fn lemma_first_with_id_at(s: Seq<AlertView>, id: Seq<char>, i: int)
    requires
        0 <= i < s.len(),
        s[i].id == id,
        forall|j: int| 0 <= j < i ==> s[j].id != id,
    ensures
        first_with_id(s, id) == Some(i),
    decreases s.len(),
{
    if i > 0 {
        let t = s.drop_first();
        assert forall|j: int| 0 <= j < i - 1 implies t[j].id != id by {
            assert(t[j] == s[j + 1]);
        }
        lemma_first_with_id_at(t, id, i - 1);
    }
}

/// No index is found when no alert carries the identifier.
proof fn lemma_first_with_id_none(s: Seq<AlertView>, id: Seq<char>)
    requires
        forall|j: int| 0 <= j < s.len() ==> s[j].id != id,
    ensures
        first_with_id(s, id) is None,
    decreases s.len(),
{
    if s.len() > 0 {
        let t = s.drop_first();
        assert forall|j: int| 0 <= j < t.len() implies t[j].id != id by {
            assert(t[j] == s[j + 1]);
        }
        lemma_first_with_id_none(t, id);
    }
}


/// After a trigger request, an alert of the requested type is active, whether the
/// request was accepted or refused as a duplicate.
pub proof fn law_trigger_makes_type_active(
    m: AlertManagerView,
    alert_type: Seq<char>,
    severity: AlertSeverity,
    timestamp: Seq<char>,
    description: Seq<char>,
    suggested_action: Seq<char>,
    related_mission_event: Option<Seq<char>>,
)
    ensures
        has_alert_type(
            trigger_outcome(
                m,
                alert_type,
                severity,
                timestamp,
                description,
                suggested_action,
                related_mission_event,
            ).0.active,
            alert_type,
        ),
{
    let (m2, a) = trigger_outcome(
        m,
        alert_type,
        severity,
        timestamp,
        description,
        suggested_action,
        related_mission_event,
    );
    if !has_alert_type(m.active, alert_type) {
        assert(m2.active[m.active.len() as int].alert_type == alert_type);
    }
}

/// Triggering never lets two active alerts share a type.
pub proof fn law_trigger_keeps_types_unique(
    m: AlertManagerView,
    alert_type: Seq<char>,
    severity: AlertSeverity,
    timestamp: Seq<char>,
    description: Seq<char>,
    suggested_action: Seq<char>,
    related_mission_event: Option<Seq<char>>,
)
    requires
        types_unique(m.active),
    ensures
        types_unique(
            trigger_outcome(
                m,
                alert_type,
                severity,
                timestamp,
                description,
                suggested_action,
                related_mission_event,
            ).0.active,
        ),
{
    let (m2, a) = trigger_outcome(
        m,
        alert_type,
        severity,
        timestamp,
        description,
        suggested_action,
        related_mission_event,
    );
    if !has_alert_type(m.active, alert_type) {
        let n = m.active.len() as int;
        assert forall|i: int, j: int|
            0 <= i < m2.active.len() && 0 <= j < m2.active.len() && i != j implies
            #[trigger] m2.active[i].alert_type != #[trigger] m2.active[j].alert_type by {
            if i == n {
                assert(m2.active[j] == m.active[j]);
            } else if j == n {
                assert(m2.active[i] == m.active[i]);
            } else {
                assert(m2.active[i] == m.active[i]);
                assert(m2.active[j] == m.active[j]);
            }
        }
    }
}

/// After clearing a type, no active alert has that type.
pub proof fn law_clear_removes_type(m: AlertManagerView, alert_type: Seq<char>)
    ensures
        !has_alert_type(clear_outcome(m, alert_type).active, alert_type),
{
    let pred = |a: AlertView| a.alert_type != alert_type;
    let r = m.active.filter(pred);
    assert forall|i: int| 0 <= i < r.len() implies #[trigger] r[i].alert_type != alert_type by {
        m.active.lemma_filter_pred(pred, i);
    }
}

/// Clearing keeps every active alert of another type, in order, and keeps the active
/// list free of duplicate types.
pub proof fn law_clear_keeps_other_types(m: AlertManagerView, alert_type: Seq<char>, other: Seq<char>)
    requires
        other != alert_type,
    ensures
        has_alert_type(m.active, other) == has_alert_type(clear_outcome(m, alert_type).active, other),
        types_unique(m.active) ==> types_unique(clear_outcome(m, alert_type).active),
{
    let pred = |a: AlertView| a.alert_type != alert_type;
    let r = m.active.filter(pred);
    if has_alert_type(m.active, other) {
        let i = choose|i: int| 0 <= i < m.active.len() && #[trigger] m.active[i].alert_type == other;
        m.active.lemma_filter_contains(pred, i);
        let k = choose|k: int| 0 <= k < r.len() && r[k] == m.active[i];
        assert(r[k].alert_type == other);
    }
    if has_alert_type(r, other) {
        let k = choose|k: int| 0 <= k < r.len() && #[trigger] r[k].alert_type == other;
        assert(r.contains(r[k]));
        m.active.lemma_filter_contains_rev(pred, r[k]);
    }
    if types_unique(m.active) {
        lemma_filter_keeps_unique_types(m.active, pred);
    }
}

/// A filtered list of alerts with distinct types still has distinct types.
proof fn lemma_filter_keeps_unique_types(s: Seq<AlertView>, pred: spec_fn(AlertView) -> bool)
    requires
        types_unique(s),
    ensures
        types_unique(s.filter(pred)),
    decreases s.len(),
{
    reveal(Seq::filter);
    if s.len() > 0 {
        let t = s.drop_last();
        assert(types_unique(t)) by {
            assert forall|i: int, j: int|
                0 <= i < t.len() && 0 <= j < t.len() && i != j implies
                #[trigger] t[i].alert_type != #[trigger] t[j].alert_type by {
                assert(t[i] == s[i] && t[j] == s[j]);
            }
        }
        lemma_filter_keeps_unique_types(t, pred);
        let ft = t.filter(pred);
        if pred(s.last()) {
            let r = ft.push(s.last());
            assert forall|i: int, j: int|
                0 <= i < r.len() && 0 <= j < r.len() && i != j implies
                #[trigger] r[i].alert_type != #[trigger] r[j].alert_type by {
                let n = ft.len() as int;
                if i == n && j < n {
                    assert(ft.contains(ft[j]));
                    t.lemma_filter_contains_rev(pred, ft[j]);
                    let k = choose|k: int| 0 <= k < t.len() && t[k] == ft[j];
                    assert(s[k] == t[k]);
                    assert(s[s.len() - 1] == s.last());
                } else if j == n && i < n {
                    assert(ft.contains(ft[i]));
                    t.lemma_filter_contains_rev(pred, ft[i]);
                    let k = choose|k: int| 0 <= k < t.len() && t[k] == ft[i];
                    assert(s[k] == t[k]);
                    assert(s[s.len() - 1] == s.last());
                } else {
                    assert(r[i] == ft[i] && r[j] == ft[j]);
                }
            }
        }
    }
}

/// Acknowledging changes no alert type, so distinct active types stay distinct, and
/// only the acknowledgement flag of one alert per list can change.
pub proof fn law_acknowledge_changes_only_flag(m: AlertManagerView, id: Seq<char>)
    ensures
        acknowledge_outcome(m, id).active.len() == m.active.len(),
        acknowledge_outcome(m, id).history.len() == m.history.len(),
        forall|i: int|
            0 <= i < m.active.len() ==> (#[trigger] acknowledge_outcome(m, id).active[i]
                == m.active[i] || acknowledge_outcome(m, id).active[i] == acknowledged(m.active[i])),
        types_unique(m.active) ==> types_unique(acknowledge_outcome(m, id).active),
{
    lemma_first_with_id_bounds(m.active, id);
    lemma_first_with_id_bounds(m.history, id);
    let r = acknowledge_outcome(m, id).active;
    if types_unique(m.active) {
        assert forall|i: int, j: int|
            0 <= i < r.len() && 0 <= j < r.len() && i != j implies
            #[trigger] r[i].alert_type != #[trigger] r[j].alert_type by {
            assert(r[i].alert_type == m.active[i].alert_type);
            assert(r[j].alert_type == m.active[j].alert_type);
        }
    }
}

/// The first index with an identifier lies inside the list and carries it.
proof fn lemma_first_with_id_bounds(s: Seq<AlertView>, id: Seq<char>)
    ensures
        first_with_id(s, id) matches Some(i) ==> 0 <= i < s.len() && s[i].id == id,
    decreases s.len(),
{
    if s.len() > 0 && s[0].id != id {
        lemma_first_with_id_bounds(s.drop_first(), id);
    }
}


/// The state of a manager that has issued nothing yet: what [`AlertManager::new`] makes.
pub open spec fn new_manager() -> AlertManagerView {
    AlertManagerView { active: Seq::empty(), history: Seq::empty(), issued: 0 }
}

/// One call on an alert manager.
pub enum ManagerOp {
    Trigger {
        alert_type: Seq<char>,
        severity: AlertSeverity,
        timestamp: Seq<char>,
        description: Seq<char>,
        suggested_action: Seq<char>,
        related_mission_event: Option<Seq<char>>,
    },
    ClearType { alert_type: Seq<char> },
    Acknowledge { id: Seq<char> },
    ClearAll,
}

/// The manager after one call, as the call's contract states it.
pub open spec fn manager_step(m: AlertManagerView, op: ManagerOp) -> AlertManagerView {
    match op {
        ManagerOp::Trigger {
            alert_type,
            severity,
            timestamp,
            description,
            suggested_action,
            related_mission_event,
        } => trigger_outcome(
            m,
            alert_type,
            severity,
            timestamp,
            description,
            suggested_action,
            related_mission_event,
        ).0,
        ManagerOp::ClearType { alert_type } => clear_outcome(m, alert_type),
        ManagerOp::Acknowledge { id } => acknowledge_outcome(m, id),
        ManagerOp::ClearAll => AlertManagerView {
            active: Seq::empty(),
            history: Seq::empty(),
            issued: m.issued,
        },
    }
}

/// The manager after a sequence of calls, in order.
pub open spec fn manager_after(m: AlertManagerView, ops: Seq<ManagerOp>) -> AlertManagerView
    decreases ops.len(),
{
    if ops.len() == 0 {
        m
    } else {
        manager_step(manager_after(m, ops.drop_last()), ops.last())
    }
}

/// A consistent manager: no two active alerts share a type, no two history entries share
/// an identifier, and every active alert is in the history, so that the history entry
/// with an active alert's identifier is that alert, acknowledgement included.
pub open spec fn manager_consistent(m: AlertManagerView) -> bool {
    &&& types_unique(m.active)
    &&& ids_unique(m.history)
    &&& forall|i: int| 0 <= i < m.active.len() ==> m.history.contains(#[trigger] m.active[i])
    &&& forall|i: int, j: int|
        0 <= i < m.active.len() && 0 <= j < m.history.len() && #[trigger] m.active[i].id
            == #[trigger] m.history[j].id ==> m.active[i] == m.history[j]
}

/// The history holds the most recently issued alerts, in the order they were issued.
pub open spec fn history_numbered(m: AlertManagerView) -> bool {
    &&& m.history.len() <= m.issued
    &&& forall|j: int|
        0 <= j < m.history.len() ==> #[trigger] m.history[j].id == alert_id(
            (m.issued - m.history.len() + 1 + j) as nat,
        )
}

/// The invariant every manager keeps.
pub open spec fn manager_wf(m: AlertManagerView) -> bool {
    manager_consistent(m) && history_numbered(m)
}

/// Numbered history entries carry distinct identifiers.
proof fn lemma_numbered_ids_unique(m: AlertManagerView)
    requires
        history_numbered(m),
    ensures
        ids_unique(m.history),
{
    assert forall|i: int, j: int|
        0 <= i < m.history.len() && 0 <= j < m.history.len() && i != j implies
        #[trigger] m.history[i].id != #[trigger] m.history[j].id by {
        let base = m.issued - m.history.len() + 1;
        if m.history[i].id == m.history[j].id {
            lemma_sequence_id_injective("ALT"@, (base + i) as nat, (base + j) as nat);
        }
    }
}

/// With distinct history identifiers, an active alert that is in the history equals the
/// history entry with its identifier.
proof fn lemma_same_id_same_alert(m: AlertManagerView)
    requires
        ids_unique(m.history),
        forall|i: int| 0 <= i < m.active.len() ==> m.history.contains(#[trigger] m.active[i]),
    ensures
        forall|i: int, j: int|
            0 <= i < m.active.len() && 0 <= j < m.history.len() && #[trigger] m.active[i].id
                == #[trigger] m.history[j].id ==> m.active[i] == m.history[j],
{
    assert forall|i: int, j: int|
        0 <= i < m.active.len() && 0 <= j < m.history.len() && #[trigger] m.active[i].id
            == #[trigger] m.history[j].id implies m.active[i] == m.history[j] by {
        assert(m.history.contains(m.active[i]));
        let k = choose|k: int| 0 <= k < m.history.len() && m.history[k] == m.active[i];
        assert(m.history[k].id == m.history[j].id);
    }
}

/// What the first index with an identifier means.
proof fn lemma_first_with_id_spec(s: Seq<AlertView>, id: Seq<char>)
    ensures
        first_with_id(s, id) matches Some(i) ==> 0 <= i < s.len() && s[i].id == id && forall|j: int|
            0 <= j < i ==> s[j].id != id,
        first_with_id(s, id) is None ==> forall|j: int| 0 <= j < s.len() ==> s[j].id != id,
    decreases s.len(),
{
    if s.len() > 0 && s[0].id != id {
        let t = s.drop_first();
        lemma_first_with_id_spec(t, id);
        assert forall|j: int| 0 < j < s.len() implies s[j] == t[j - 1] by {}
    }
}

/// Each call keeps the manager's invariant.
pub proof fn law_step_keeps_wf(m: AlertManagerView, op: ManagerOp)
    requires
        manager_wf(m),
    ensures
        manager_wf(manager_step(m, op)),
{
    let m2 = manager_step(m, op);
    match op {
        ManagerOp::Trigger {
            alert_type,
            severity,
            timestamp,
            description,
            suggested_action,
            related_mission_event,
        } => {
            law_trigger_keeps_types_unique(
                m,
                alert_type,
                severity,
                timestamp,
                description,
                suggested_action,
                related_mission_event,
            );
            if !has_alert_type(m.active, alert_type) {
                let a = m2.history.last();
                let n = m.history.len() as int;
                assert(m2.history[n] == a);
                assert(a.id == alert_id(m.issued + 1));
                assert forall|j: int| 0 <= j < m2.history.len() implies #[trigger] m2.history[j].id
                    == alert_id((m2.issued - m2.history.len() + 1 + j) as nat) by {
                    if j < n {
                        assert(m2.history[j] == m.history[j]);
                    }
                }
                lemma_numbered_ids_unique(m2);
                assert forall|i: int| 0 <= i < m2.active.len() implies m2.history.contains(
                    #[trigger] m2.active[i],
                ) by {
                    if i < m.active.len() {
                        assert(m2.active[i] == m.active[i]);
                        let k = choose|k: int| 0 <= k < m.history.len() && m.history[k] == m.active[i];
                        assert(m2.history[k] == m.history[k]);
                    } else {
                        assert(m2.active[i] == a);
                    }
                }
                lemma_same_id_same_alert(m2);
            }
        },
        ManagerOp::ClearType { alert_type } => {
            let pred = |a: AlertView| a.alert_type != alert_type;
            lemma_filter_keeps_unique_types(m.active, pred);
            assert forall|i: int| 0 <= i < m2.active.len() implies m2.history.contains(
                #[trigger] m2.active[i],
            ) by {
                assert(m2.active.contains(m2.active[i]));
                m.active.lemma_filter_contains_rev(pred, m2.active[i]);
                let k = choose|k: int| 0 <= k < m.active.len() && m.active[k] == m2.active[i];
                assert(m.history.contains(m.active[k]));
            }
            lemma_same_id_same_alert(m2);
        },
        ManagerOp::Acknowledge { id } => {
            law_acknowledge_changes_only_flag(m, id);
            lemma_first_with_id_spec(m.active, id);
            lemma_first_with_id_spec(m.history, id);
            assert forall|j: int| 0 <= j < m2.history.len() implies #[trigger] m2.history[j].id
                == m.history[j].id by {}
            assert forall|j: int| 0 <= j < m2.history.len() implies #[trigger] m2.history[j].id
                == alert_id((m2.issued - m2.history.len() + 1 + j) as nat) by {
                assert(m2.history[j].id == m.history[j].id);
            }
            lemma_numbered_ids_unique(m2);
            assert forall|i: int| 0 <= i < m2.active.len() implies m2.history.contains(
                #[trigger] m2.active[i],
            ) by {
                let k = choose|k: int| 0 <= k < m.history.len() && m.history[k] == m.active[i];
                if m.active[i].id == id {
                    // the history entry with this identifier is the first one with it
                    assert forall|j: int| 0 <= j < k implies m.history[j].id != id by {
                        assert(m.history[j].id != m.history[k].id);
                    }
                    assert(first_with_id(m.history, id) == Some(k)) by {
                        lemma_first_with_id_at(m.history, id, k);
                    }
                    assert(m2.history[k] == acknowledged(m.history[k]));
                    match first_with_id(m.active, id) {
                        Some(f) => {
                            if f != i {
                                let kf = choose|kf: int| 0 <= kf < m.history.len() && m.history[kf] == m.active[f];
                                assert(m.history[kf].id == m.history[k].id);
                                assert(m.active[f] == m.active[i]);
                                assert(m.active[f].alert_type == m.active[i].alert_type);
                            }
                            assert(m2.active[i] == acknowledged(m.active[i]));
                        },
                        None => {},
                    }
                    assert(m2.history[k] == m2.active[i]);
                } else {
                    assert(m2.active[i] == m.active[i]);
                    assert(m2.history[k] == m.history[k]);
                }
            }
            lemma_same_id_same_alert(m2);
        },
        ManagerOp::ClearAll => {},
    }
}

/// From a new manager, after any sequence of trigger, clear, acknowledge and clear-all
/// calls: no two active alerts share a type, no two history entries share an identifier,
/// and each active alert equals, acknowledgement included, the history entry with its
/// identifier.
pub proof fn law_manager_consistent(ops: Seq<ManagerOp>)
    ensures
        manager_wf(manager_after(new_manager(), ops)),
        manager_consistent(manager_after(new_manager(), ops)),
    decreases ops.len(),
{
    if ops.len() == 0 {
        let m = new_manager();
        assert(ids_unique(m.history));
    } else {
        law_manager_consistent(ops.drop_last());
        law_step_keeps_wf(manager_after(new_manager(), ops.drop_last()), ops.last());
    }
}

} // verus!
