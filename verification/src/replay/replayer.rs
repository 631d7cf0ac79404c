//! Deterministic mission replay engine with scrubber controls.
//!
//! The replayer walks through the recorded frames of a mission. Timing (the playback speed
//! and the time carried over between ticks) is kept by whoever drives it, who tells the
//! replayer how many frames to advance.

use vstd::prelude::*;
use crate::analysis::alerts::{alerts_view, Alert, AlertView};
use crate::simulation::events::{events_view, newest_first, EventView, MissionEvent};

verus! {

/// How many events a replayed frame shows at most.
pub const REPLAY_EVENT_WINDOW: usize = 40;

/// The items of `s` whose flag in `keep` is set, in order.
pub open spec fn kept<A>(s: Seq<A>, keep: Seq<bool>) -> Seq<A>
    decreases s.len(),
{
    if s.len() == 0 {
        seq![]
    } else if keep[s.len() - 1] {
        kept(s.drop_last(), keep).push(s.last())
    } else {
        kept(s.drop_last(), keep)
    }
}

/// In-memory replay engine delivering recorded frames.
pub struct TrafficReplayer<S> {
    pub snapshots: Vec<S>,
    pub events: Vec<MissionEvent>,
    pub alerts: Vec<Alert>,
    pub current_index: usize,
    pub is_active: bool,
    pub is_playing: bool,
}

/// The replayer's state apart from its recordings.
pub struct ReplayState {
    pub frames: nat,
    pub current_index: nat,
    pub is_active: bool,
    pub is_playing: bool,
}

impl<S> TrafficReplayer<S> {
    /// The replayer's position and flags, with its number of frames.
    pub open spec fn state(&self) -> ReplayState {
        ReplayState {
            frames: self.snapshots.len() as nat,
            current_index: self.current_index as nat,
            is_active: self.is_active,
            is_playing: self.is_playing,
        }
    }

    /// A consistent replayer: the position is a frame (or 0 with no frames), only a
    /// replayer with frames is active, and only an active one plays.
    pub open spec fn wf(&self) -> bool {
        &&& if self.snapshots.len() == 0 {
            self.current_index == 0 && !self.is_active
        } else {
            self.current_index < self.snapshots.len()
        }
        &&& self.is_playing ==> self.is_active
    }

    /// A replayer can step when it is active and playing with frames loaded.
    pub open spec fn stepping(&self) -> bool {
        self.is_active && self.is_playing && self.snapshots.len() > 0
    }

    /// An inactive replayer with nothing loaded.
    pub fn new() -> (r: Self)
        ensures
            r.wf(),
            r.snapshots@.len() == 0,
            r.events@.len() == 0,
            r.alerts@.len() == 0,
            r.current_index == 0,
            !r.is_active,
            !r.is_playing,
    {
        TrafficReplayer {
            snapshots: Vec::new(),
            events: Vec::new(),
            alerts: Vec::new(),
            current_index: 0,
            is_active: false,
            is_playing: false,
        }
    }

    /// Loads a recording and rewinds to its first frame, paused; the replayer is active
    /// when the recording has frames.
    pub fn load_mission(&mut self, snapshots: Vec<S>, events: Vec<MissionEvent>, alerts: Vec<Alert>)
        ensures
            final(self).wf(),
            final(self).snapshots@ == snapshots@,
            final(self).events@ == events@,
            final(self).alerts@ == alerts@,
            final(self).current_index == 0,
            final(self).is_active == (snapshots@.len() > 0),
            !final(self).is_playing,
    {
        self.snapshots = snapshots;
        self.events = events;
        self.alerts = alerts;
        self.current_index = 0;
        self.is_active = self.snapshots.len() > 0;
        self.is_playing = false;
    }

    /// Starts playing, if the replayer is active with frames; otherwise nothing changes.
    pub fn play(&mut self)
        requires
            old(self).wf(),
        ensures
            final(self).wf(),
            final(self).state() == (ReplayState {
                is_playing: old(self).is_playing || (old(self).is_active && old(self).snapshots.len() > 0),
                ..old(self).state()
            }),
            final(self).snapshots@ == old(self).snapshots@,
            final(self).events@ == old(self).events@,
            final(self).alerts@ == old(self).alerts@,
    {
        if self.is_active && self.snapshots.len() > 0 {
            self.is_playing = true;
        }
    }

    /// Pauses; the position stays.
    pub fn pause(&mut self)
        requires
            old(self).wf(),
        ensures
            final(self).wf(),
            final(self).state() == (ReplayState { is_playing: false, ..old(self).state() }),
            final(self).snapshots@ == old(self).snapshots@,
            final(self).events@ == old(self).events@,
            final(self).alerts@ == old(self).alerts@,
    {
        self.is_playing = false;
    }

    /// Resumes playing: the same as [`Self::play`].
    pub fn resume(&mut self)
        requires
            old(self).wf(),
        ensures
            final(self).wf(),
            final(self).state() == (ReplayState {
                is_playing: old(self).is_playing || (old(self).is_active && old(self).snapshots.len() > 0),
                ..old(self).state()
            }),
            final(self).snapshots@ == old(self).snapshots@,
            final(self).events@ == old(self).events@,
            final(self).alerts@ == old(self).alerts@,
    {
        self.play();
    }

    /// Rewinds to the first frame, paused; the replayer stays active or inactive.
    pub fn reset(&mut self)
        requires
            old(self).wf(),
        ensures
            final(self).wf(),
            final(self).state() == (ReplayState { current_index: 0, is_playing: false, ..old(self).state() }),
            final(self).snapshots@ == old(self).snapshots@,
            final(self).events@ == old(self).events@,
            final(self).alerts@ == old(self).alerts@,
    {
        self.current_index = 0;
        self.is_playing = false;
    }

    /// Moves to the given frame, or to the last one when the index is past the end, and
    /// returns the new position; with no frames nothing changes and `None` is returned.
    pub fn seek(&mut self, index: usize) -> (r: Option<usize>)
        requires
            old(self).wf(),
        ensures
            final(self).wf(),
            old(self).snapshots.len() == 0 ==> r is None && final(self).state() == old(self).state(),
            old(self).snapshots.len() > 0 ==> {
                let last = old(self).snapshots.len() - 1;
                let to = if index < last { index as int } else { last };
                &&& r == Some(to as usize)
                &&& final(self).state() == (ReplayState { current_index: to as nat, ..old(self).state() })
            },
            final(self).snapshots@ == old(self).snapshots@,
            final(self).events@ == old(self).events@,
            final(self).alerts@ == old(self).alerts@,
    {
        if self.snapshots.len() == 0 {
            return None;
        }
        let last = self.snapshots.len() - 1;
        self.current_index = if index < last {
            index
        } else {
            last
        };
        Some(self.current_index)
    }

    /// Leaves replay: inactive, paused, at the first frame. The recording stays loaded.
    pub fn stop(&mut self)
        requires
            old(self).wf(),
        ensures
            final(self).wf(),
            final(self).state() == (ReplayState {
                current_index: 0,
                is_active: false,
                is_playing: false,
                ..old(self).state()
            }),
            final(self).snapshots@ == old(self).snapshots@,
            final(self).events@ == old(self).events@,
            final(self).alerts@ == old(self).alerts@,
    {
        self.is_active = false;
        self.is_playing = false;
        self.current_index = 0;
    }

    /// Whether the replayer is active and playing with frames loaded.
    pub fn can_step(&self) -> (b: bool)
        ensures
            b == self.stepping(),
    {
        self.is_active && self.is_playing && self.snapshots.len() > 0
    }

    /// Jumps to the last frame and pauses there (playback so fast that it completes at
    /// once). Returns whether a frame is delivered: only a replayer that can step moves.
    pub fn jump_to_end(&mut self) -> (delivered: bool)
        requires
            old(self).wf(),
        ensures
            final(self).wf(),
            delivered == old(self).stepping(),
            !delivered ==> final(self).state() == old(self).state(),
            delivered ==> final(self).state() == (ReplayState {
                current_index: (old(self).snapshots.len() - 1) as nat,
                is_playing: false,
                ..old(self).state()
            }),
            final(self).snapshots@ == old(self).snapshots@,
            final(self).events@ == old(self).events@,
            final(self).alerts@ == old(self).alerts@,
    {
        if !self.can_step() {
            return false;
        }
        self.current_index = self.snapshots.len() - 1;
        self.is_playing = false;
        true
    }

    /// Advances playback by `frames` frames. Only a replayer that can step moves, and only
    /// by at least one frame; reaching or passing the last frame stops there and pauses.
    /// Returns whether a frame is delivered.
    pub fn advance(&mut self, frames: usize) -> (delivered: bool)
        requires
            old(self).wf(),
        ensures
            final(self).wf(),
            delivered == (old(self).stepping() && frames > 0),
            !delivered ==> final(self).state() == old(self).state(),
            delivered ==> {
                let last = old(self).snapshots.len() - 1;
                let to = old(self).current_index + frames;
                if to < old(self).snapshots.len() {
                    final(self).state() == (ReplayState { current_index: to as nat, ..old(self).state() })
                } else {
                    final(self).state() == (ReplayState {
                        current_index: last as nat,
                        is_playing: false,
                        ..old(self).state()
                    })
                }
            },
            final(self).snapshots@ == old(self).snapshots@,
            final(self).events@ == old(self).events@,
            final(self).alerts@ == old(self).alerts@,
    {
        if !self.can_step() || frames == 0 {
            return false;
        }
        let len = self.snapshots.len();
        if frames < len - self.current_index {
            self.current_index = self.current_index + frames;
        } else {
            self.current_index = len - 1;
            self.is_playing = false;
        }
        true
    }

    /// The frame at the current position, if any.
    pub fn current(&self) -> (r: Option<&S>)
        requires
            self.wf(),
        ensures
            self.snapshots.len() == 0 ==> r is None,
            self.snapshots.len() > 0 ==> r == Some(&self.snapshots@[self.current_index as int]),
    {
        if self.snapshots.len() == 0 {
            None
        } else {
            Some(&self.snapshots[self.current_index])
        }
    }

    /// The events the current frame shows: those marked visible (recorded no later than the
    /// frame), newest first, at most [`REPLAY_EVENT_WINDOW`] of them.
    pub fn visible_events(&self, visible: &Vec<bool>) -> (r: Vec<MissionEvent>)
        requires
            visible.len() == self.events.len(),
        ensures
            events_view(r@) == newest_first(
                kept(events_view(self.events@), visible@),
                REPLAY_EVENT_WINDOW as nat,
            ),
    {
        let mut shown: Vec<MissionEvent> = Vec::new();
        let mut i: usize = self.events.len();
        let ghost all = events_view(self.events@);
        proof {
            assert(shown@.len() == 0);
            assert(events_view(shown@) =~= Seq::<EventView>::empty());
            assert(all.take(i as int) =~= all);
            let w = newest_first(kept(all, visible@), REPLAY_EVENT_WINDOW as nat);
            assert(w.take(0).reverse() =~= Seq::<EventView>::empty());
            assert(kept(all, visible@) + w.take(0).reverse() =~= kept(all, visible@));
        }
        while i > 0 && shown.len() < REPLAY_EVENT_WINDOW
            invariant
                i <= self.events.len(),
                visible.len() == self.events.len(),
                all == events_view(self.events@),
                shown.len() <= REPLAY_EVENT_WINDOW,
                events_view(shown@) == newest_first(kept(all, visible@), REPLAY_EVENT_WINDOW as nat).take(
                    shown.len() as int,
                ),
                kept(all, visible@) == kept(all.take(i as int), visible@) + newest_first(
                    kept(all, visible@),
                    REPLAY_EVENT_WINDOW as nat,
                ).take(shown.len() as int).reverse(),
            decreases i,
        {
            i = i - 1;
            proof {
                lemma_kept_step(all, visible@, i as int);
            }
            if visible[i] {
                let e = self.events[i].duplicate();
                let ghost ev = e@;
                let ghost before = shown@;
                shown.push(e);
                proof {
                    lemma_newest_first_take_step(kept(all, visible@), kept(all.take(i as int), visible@), events_view(before), ev);
                    assert(events_view(shown@) =~= events_view(before).push(ev));
                }
            }
        }
        proof {
            let k = kept(all, visible@);
            let w = newest_first(k, REPLAY_EVENT_WINDOW as nat);
            if i == 0 {
                assert(all.take(0) =~= Seq::<EventView>::empty());
                assert(k =~= w.take(shown.len() as int).reverse());
            }
            assert(w.len() == shown.len()) by {
                if i == 0 {
                    assert(k.len() == shown.len());
                }
            }
            assert(w.take(shown.len() as int) =~= w);
        }
        shown
    }

    /// The alerts the current frame shows: those marked visible (raised no later than the
    /// frame), in order.
    pub fn visible_alerts(&self, visible: &Vec<bool>) -> (r: Vec<Alert>)
        requires
            visible.len() == self.alerts.len(),
        ensures
            alerts_view(r@) == kept(alerts_view(self.alerts@), visible@),
    {
        let mut shown: Vec<Alert> = Vec::new();
        let mut i: usize = 0;
        let ghost all = alerts_view(self.alerts@);
        proof {
            assert(all.take(0) =~= Seq::<AlertView>::empty());
            assert(alerts_view(shown@) =~= Seq::<AlertView>::empty());
        }
        while i < self.alerts.len()
            invariant
                i <= self.alerts.len(),
                visible.len() == self.alerts.len(),
                all == alerts_view(self.alerts@),
                alerts_view(shown@) == kept(all.take(i as int), visible@),
            decreases self.alerts.len() - i,
        {
            proof {
                assert(all.take(i + 1).drop_last() =~= all.take(i as int));
                assert(all.take(i + 1).last() == all[i as int]);
            }
            if visible[i] {
                let a = self.alerts[i].duplicate();
                let ghost av = a@;
                let ghost before = shown@;
                shown.push(a);
                proof {
                    assert(alerts_view(shown@) =~= alerts_view(before).push(av));
                }
            }
            i = i + 1;
        }
        proof {
            assert(all.take(self.alerts.len() as int) =~= all);
        }
        shown
    }
}

/// Splitting off the last item considered.
proof fn lemma_kept_step<A>(s: Seq<A>, keep: Seq<bool>, i: int)
    requires
        0 <= i < s.len(),
    ensures
        kept(s.take(i + 1), keep) == (if keep[i] {
            kept(s.take(i), keep).push(s[i])
        } else {
            kept(s.take(i), keep)
        }),
{
    assert(s.take(i + 1).drop_last() =~= s.take(i));
    assert(s.take(i + 1).last() == s[i]);
}

proof fn lemma_newest_first_take_step<A>(k: Seq<A>, front: Seq<A>, taken: Seq<A>, x: A)
    requires
        k == front.push(x) + taken.reverse(),
        taken.len() < 40,
        taken == newest_first(k, 40).take(taken.len() as int),
    ensures
        taken.push(x) == newest_first(k, 40).take(taken.len() + 1 as int),
        k == front + taken.push(x).reverse(),
{
    let n = taken.len();
    let w = newest_first(k, 40);
    assert(k.len() == front.len() + 1 + n);
    assert(w[n as int] == k[k.len() - 1 - n]);
    assert(k[k.len() - 1 - n] == x);
    assert(taken.push(x) =~= w.take(n + 1 as int));
    assert(k =~= front + taken.push(x).reverse());
}

} // verus!
