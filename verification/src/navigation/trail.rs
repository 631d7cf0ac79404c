//! Breadcrumb trails of the raw and filtered positions, for display: one point kept every
//! fourth estimator update, and at most a fixed number of points per trail.

use vstd::prelude::*;

verus! {

/// How many estimator updates pass between two recorded trail points.
pub const TRAIL_SUBSAMPLE: usize = 4;

/// The trail after recording `p`: the oldest point goes first when the trail is full.
pub open spec fn bounded_push<P>(s: Seq<P>, p: P, max: nat) -> Seq<P> {
    if s.len() >= max {
        s.drop_first().push(p)
    } else {
        s.push(p)
    }
}

/// The raw and filtered trails of a state estimator.
pub struct TrailRecorder<P> {
    pub raw_trail: Vec<P>,
    pub filtered_trail: Vec<P>,
    pub max_trail_len: usize,
    pub sample_counter: usize,
}

/// Appends `p`, first dropping the oldest point when the trail holds `max` points.
fn push_bounded<P>(trail: &mut Vec<P>, p: P, max: usize)
    requires
        max > 0,
    ensures
        final(trail)@ == bounded_push(old(trail)@, p, max as nat),
{
    if trail.len() >= max {
        trail.remove(0);
    }
    trail.push(p);
    proof {
        if old(trail)@.len() >= max {
            assert(old(trail)@.remove(0) =~= old(trail)@.drop_first());
        }
    }
}

impl<P> TrailRecorder<P> {
    /// A recorder's trails are within their bound, which is positive.
    pub open spec fn wf(&self) -> bool {
        &&& self.max_trail_len > 0
        &&& self.raw_trail.len() <= self.max_trail_len
        &&& self.filtered_trail.len() <= self.max_trail_len
    }

    /// Empty trails of at most `max_trail_len` points each.
    pub fn new(max_trail_len: usize) -> (r: Self)
        requires
            max_trail_len > 0,
        ensures
            r.wf(),
            r.raw_trail@.len() == 0,
            r.filtered_trail@.len() == 0,
            r.max_trail_len == max_trail_len,
            r.sample_counter == 0,
    {
        TrailRecorder { raw_trail: Vec::new(), filtered_trail: Vec::new(), max_trail_len, sample_counter: 0 }
    }

    /// Counts one estimator update; on every fourth one the raw and filtered points are
    /// added to their trails, the oldest points giving way when a trail is full. Returns
    /// whether the points were recorded.
    pub fn record(&mut self, raw: P, filtered: P) -> (recorded: bool)
        requires
            old(self).wf(),
            old(self).sample_counter < usize::MAX,
        ensures
            final(self).wf(),
            final(self).sample_counter == old(self).sample_counter + 1,
            final(self).max_trail_len == old(self).max_trail_len,
            recorded == (final(self).sample_counter % TRAIL_SUBSAMPLE == 0),
            recorded ==> final(self).raw_trail@ == bounded_push(old(self).raw_trail@, raw, old(self).max_trail_len as nat)
                && final(self).filtered_trail@ == bounded_push(
                old(self).filtered_trail@,
                filtered,
                old(self).max_trail_len as nat,
            ),
            !recorded ==> final(self).raw_trail@ == old(self).raw_trail@ && final(self).filtered_trail@
                == old(self).filtered_trail@,
    {
        self.sample_counter = self.sample_counter + 1;
        if self.sample_counter % TRAIL_SUBSAMPLE == 0 {
            push_bounded(&mut self.raw_trail, raw, self.max_trail_len);
            push_bounded(&mut self.filtered_trail, filtered, self.max_trail_len);
            true
        } else {
            false
        }
    }

    /// Empties both trails and restarts the count of updates.
    pub fn reset(&mut self)
        requires
            old(self).wf(),
        ensures
            final(self).wf(),
            final(self).raw_trail@.len() == 0,
            final(self).filtered_trail@.len() == 0,
            final(self).max_trail_len == old(self).max_trail_len,
            final(self).sample_counter == 0,
    {
        self.raw_trail.clear();
        self.filtered_trail.clear();
        self.sample_counter = 0;
    }
}

} // verus!
