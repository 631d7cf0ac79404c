//! The chronological mission event log.

use vstd::prelude::*;
use vstd::string::*;
use crate::text::{format_sequence_id, sequence_id};

verus! {

broadcast use vstd::string::group_string_axioms;

/// Structured details attached to an event; carried as they are.
#[verifier::external_type_specification]
#[verifier::external_body]
pub struct ExJsonValue(serde_json::Value);

/// Copies the details of an event with `Option::clone`, which clones the
/// `serde_json::Value` inside; the copy equals the original.
#[verifier::external_body]
fn clone_details(d: &Option<serde_json::Value>) -> (r: Option<serde_json::Value>)
    ensures
        r == *d,
{
    d.clone()
}

/// Mission event recorded in chronological log.
#[derive(Debug)]
pub struct MissionEvent {
    pub id: String,
    pub timestamp: String,
    pub event_type: String,
    pub description: String,
    pub details: Option<serde_json::Value>,
}

/// The content of a [`MissionEvent`], its texts as character sequences.
pub struct EventView {
    pub id: Seq<char>,
    pub timestamp: Seq<char>,
    pub event_type: Seq<char>,
    pub description: Seq<char>,
    pub details: Option<serde_json::Value>,
}

impl View for MissionEvent {
    type V = EventView;

    open spec fn view(&self) -> EventView {
        EventView {
            id: self.id@,
            timestamp: self.timestamp@,
            event_type: self.event_type@,
            description: self.description@,
            details: self.details,
        }
    }
}

/// The views of a sequence of events.
pub open spec fn events_view(s: Seq<MissionEvent>) -> Seq<EventView> {
    s.map_values(|e: MissionEvent| e@)
}

impl MissionEvent {
    /// A field-by-field copy of the event.
    pub fn duplicate(&self) -> (r: MissionEvent)
        ensures
            r@ == self@,
    {
        MissionEvent {
            id: self.id.clone(),
            timestamp: self.timestamp.clone(),
            event_type: self.event_type.clone(),
            description: self.description.clone(),
            details: clone_details(&self.details),
        }
    }
}

/// The identifier of the `n`-th event logged: `EVT-0001`, `EVT-0002`, ...
pub open spec fn event_id(n: nat) -> Seq<char> {
    sequence_id("EVT"@, n)
}

/// The last `n` items of `s` (all of them if there are fewer), newest first.
pub open spec fn newest_first<A>(s: Seq<A>, n: nat) -> Seq<A> {
    let k = if n < s.len() { n } else { s.len() };
    Seq::new(k, |i: int| s[s.len() - 1 - i])
}

/// The mathematical state of an [`EventLog`].
pub struct EventLogView {
    pub events: Seq<EventView>,
    /// How many events have been logged since the log was created.
    pub logged: nat,
}

/// The chronological log of a mission's events, with the counter that numbers them.
#[derive(Debug)]
pub struct EventLog {
    pub events: Vec<MissionEvent>,
    event_counter: usize,
}

impl View for EventLog {
    type V = EventLogView;

    closed spec fn view(&self) -> EventLogView {
        EventLogView { events: events_view(self.events@), logged: self.event_counter as nat }
    }
}

impl EventLog {
    /// An empty log.
    pub fn new() -> (l: Self)
        ensures
            l@.events == Seq::<EventView>::empty(),
            l@.logged == 0,
    {
        let l = EventLog { events: Vec::new(), event_counter: 0 };
        assert(l@.events =~= Seq::<EventView>::empty());
        l
    }

    /// How many events have been logged so far.
    pub fn logged_count(&self) -> (n: usize)
        ensures
            n == self@.logged,
    {
        self.event_counter
    }

    /// Appends an event stamped with the given time: it gets the next identifier
    /// (`EVT-0001`, `EVT-0002`, ...).
    pub fn log_event(
        &mut self,
        event_type: &str,
        description: &str,
        details: Option<serde_json::Value>,
        timestamp: &str,
    )
        requires
            old(self)@.logged < usize::MAX,
        ensures
            final(self)@.logged == old(self)@.logged + 1,
            final(self)@.events == old(self)@.events.push(
                EventView {
                    id: event_id(old(self)@.logged + 1),
                    timestamp: timestamp@,
                    event_type: event_type@,
                    description: description@,
                    details,
                },
            ),
    {
        self.event_counter = self.event_counter + 1;
        let event = MissionEvent {
            id: format_sequence_id("EVT", self.event_counter),
            timestamp: timestamp.to_string(),
            event_type: event_type.to_string(),
            description: description.to_string(),
            details,
        };
        proof {
            reveal_strlit("EVT");
        }
        let ghost e = event@;
        self.events.push(event);
        assert(self@.events =~= old(self)@.events.push(e));
    }

    /// Copies of the last `n` events (all if there are fewer), newest first.
    pub fn recent(&self, n: usize) -> (r: Vec<MissionEvent>)
        ensures
            events_view(r@) == newest_first(self@.events, n as nat),
    {
        recent_of(&self.events, n)
    }
}

/// Copies of the last `n` items of `events` (all if there are fewer), newest first.
pub fn recent_of(events: &Vec<MissionEvent>, n: usize) -> (r: Vec<MissionEvent>)
    ensures
        events_view(r@) == newest_first(events_view(events@), n as nat),
{
    let len = events.len();
    let k = if n < len {
        n
    } else {
        len
    };
    let mut r: Vec<MissionEvent> = Vec::new();
    let mut i: usize = 0;
    while i < k
        invariant
            k <= len == events.len(),
            k == (if n < len { n } else { len }),
            i <= k,
            events_view(r@) == newest_first(events_view(events@), n as nat).take(i as int),
        decreases k - i,
    {
        let e = events[len - 1 - i].duplicate();
        let ghost before = r@;
        let ghost ev = e@;
        r.push(e);
        proof {
            let s = newest_first(events_view(events@), n as nat);
            assert(s[i as int] == events@[len - 1 - i]@);
            assert(events_view(before) == s.take(i as int));
            assert(events_view(r@) =~= events_view(before).push(ev));
            assert(events_view(r@) =~= s.take(i + 1));
        }
        i = i + 1;
    }
    proof {
        let s = newest_first(events_view(events@), n as nat);
        assert(s.take(k as int) =~= s);
    }
    r
}

} // verus!
