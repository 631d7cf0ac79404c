//! Route shaping and following: line-of-sight smoothing of planned routes, and the
//! progression of a drone along the waypoints of its route.

use vstd::prelude::*;
use vstd::string::*;

verus! {

broadcast use vstd::string::group_string_axioms;

/// `keep` is the string-pulled form of a route of `n` points, where `sees(a, b, r)` tells
/// that the sight test from point `a` to point `b` answered `r`: it starts at the first
/// point and ends at the last; from each kept point it jumps to the furthest later point
/// before the first one (from two ahead on) that cannot be seen.
pub open spec fn pulled(keep: Seq<usize>, n: nat, sees: spec_fn(usize, usize, bool) -> bool) -> bool {
    &&& keep.len() >= 2
    &&& keep[0] == 0
    &&& keep.last() == n - 1
    &&& forall|k: int| 0 <= k < keep.len() - 1 ==> #[trigger] keep[k] < keep[k + 1]
    &&& forall|k: int, m: int|
        0 <= k < keep.len() - 1 && keep[k] + 2 <= m <= keep[k + 1] ==> sees(
            #[trigger] keep[k],
            #[trigger] (m as usize),
            true,
        )
    &&& forall|k: int|
        0 <= k < keep.len() - 1 && keep[k + 1] + 1 < n ==> sees(
            #[trigger] keep[k],
            (keep[k + 1] + 1) as usize,
            false,
        )
}

/// Line-of-sight smoothing of a route of `n` points: the indices of the points kept, in
/// order. A route of at most two points is kept whole; otherwise each kept point is followed
/// by the furthest point reachable through points that `sight` can all see from it, the
/// scan stopping at the first point it cannot see.
pub fn smooth_route<F: Fn(usize, usize) -> bool>(n: usize, sight: &F) -> (keep: Vec<usize>)
    requires
        forall|i: usize, j: usize| i < j < n ==> sight.requires((i, j)),
    ensures
        n <= 2 ==> keep@ == Seq::new(n as nat, |i: int| i as usize),
        n > 2 ==> pulled(keep@, n as nat, |a: usize, b: usize, r: bool| sight.ensures((a, b), r)),
{
    let mut keep: Vec<usize> = Vec::new();
    if n <= 2 {
        let mut i: usize = 0;
        while i < n
            invariant
                i <= n,
                keep@ == Seq::new(i as nat, |k: int| k as usize),
            decreases n - i,
        {
            keep.push(i);
            proof {
                assert(keep@ =~= Seq::new((i + 1) as nat, |k: int| k as usize));
            }
            i = i + 1;
        }
        return keep;
    }
    let ghost sees = |a: usize, b: usize, r: bool| sight.ensures((a, b), r);
    keep.push(0);
    let mut anchor: usize = 0;
    while anchor < n - 1
        invariant
            n > 2,
            forall|i: usize, j: usize| i < j < n ==> sight.requires((i, j)),
            sees == (|a: usize, b: usize, r: bool| sight.ensures((a, b), r)),
            anchor < n,
            keep.len() >= 1,
            keep@[0] == 0,
            keep@.last() == anchor,
            forall|k: int| 0 <= k < keep.len() - 1 ==> #[trigger] keep@[k] < keep@[k + 1],
            forall|k: int, m: int|
                0 <= k < keep.len() - 1 && keep@[k] + 2 <= m <= keep@[k + 1] ==> sees(
                    #[trigger] keep@[k],
                    #[trigger] (m as usize),
                    true,
                ),
            forall|k: int|
                0 <= k < keep.len() - 1 && keep@[k + 1] + 1 < n ==> sees(
                    #[trigger] keep@[k],
                    (keep@[k + 1] + 1) as usize,
                    false,
                ),
            anchor > 0 ==> keep.len() >= 2,
        decreases n - anchor,
    {
        let mut furthest: usize = anchor + 1;
        let mut test: usize = anchor + 2;
        let mut blocked = false;
        while test < n && !blocked
            invariant
                n > 2,
                forall|i: usize, j: usize| i < j < n ==> sight.requires((i, j)),
                anchor + 1 <= furthest < n,
                test == furthest + 1,
                forall|m: int| anchor + 2 <= m <= furthest ==> sees(anchor, #[trigger] (m as usize), true),
                sees == (|a: usize, b: usize, r: bool| sight.ensures((a, b), r)),
                blocked ==> test < n && sees(anchor, test, false),
            decreases n - test + (if blocked { 0int } else { 1int }),
        {
            if sight(anchor, test) {
                furthest = test;
                test = test + 1;
            } else {
                blocked = true;
            }
        }
        let ghost old_keep = keep@;
        keep.push(furthest);
        proof {
            let kk = old_keep.len() - 1;
            assert(keep@[kk] == anchor);
            assert(keep@[kk + 1] == furthest);
            assert forall|k: int| 0 <= k < keep.len() - 1 implies #[trigger] keep@[k] < keep@[k + 1] by {
                if k < kk {
                    assert(keep@[k] == old_keep[k] && keep@[k + 1] == old_keep[k + 1]);
                }
            }
            assert forall|k: int, m: int|
                0 <= k < keep.len() - 1 && keep@[k] + 2 <= m <= keep@[k + 1] implies sees(
                    #[trigger] keep@[k],
                    #[trigger] (m as usize),
                    true,
                ) by {
                if k < kk {
                    assert(keep@[k] == old_keep[k] && keep@[k + 1] == old_keep[k + 1]);
                }
            }
            assert forall|k: int| 0 <= k < keep.len() - 1 && keep@[k + 1] + 1 < n implies sees(
                #[trigger] keep@[k],
                (keep@[k + 1] + 1) as usize,
                false,
            ) by {
                if k < kk {
                    assert(keep@[k] == old_keep[k] && keep@[k + 1] == old_keep[k + 1]);
                }
            }
        }
        anchor = furthest;
    }
    keep
}

/// The error for a planned route with fewer than two points.
pub open spec fn trivial_route_error() -> Seq<char> {
    "Path planning returned trivial path"@
}

/// A planned route and the index of the waypoint being flown to.
pub struct RouteFollower<P> {
    pub planned_route: Vec<P>,
    pub current_route_index: usize,
}

impl<P> RouteFollower<P> {
    /// No route.
    pub fn new() -> (r: Self)
        ensures
            r.planned_route@.len() == 0,
            r.current_route_index == 0,
    {
        RouteFollower { planned_route: Vec::new(), current_route_index: 0 }
    }

    /// Starts following a planned route from its second point (the first is where the
    /// drone stands); returns that point's index, 1. A route of fewer than two points is
    /// refused and the current route is kept.
    pub fn follow(&mut self, path: Vec<P>) -> (r: Result<usize, String>)
        ensures
            path@.len() < 2 ==> (r matches Err(e) && e@ == trivial_route_error()) && *final(self)
                == *old(self),
            path@.len() >= 2 ==> r == Ok::<usize, String>(1) && final(self).planned_route@ == path@
                && final(self).current_route_index == 1,
    {
        if path.len() < 2 {
            return Err("Path planning returned trivial path".to_string());
        }
        self.planned_route = path;
        self.current_route_index = 1;
        Ok(1)
    }

    /// The waypoint being flown to, if the route is not finished.
    pub fn target(&self) -> (t: Option<&P>)
        ensures
            self.current_route_index < self.planned_route.len() ==> t == Some(
                &self.planned_route@[self.current_route_index as int],
            ),
            self.current_route_index >= self.planned_route.len() ==> t is None,
    {
        if self.current_route_index < self.planned_route.len() {
            Some(&self.planned_route[self.current_route_index])
        } else {
            None
        }
    }

    /// Called each tick with whether the current waypoint has been reached: on reaching it
    /// the next one becomes the target, and its index is returned while the route lasts.
    /// Nothing changes while the waypoint is not reached or the route is finished.
    pub fn waypoint_reached(&mut self, reached: bool) -> (next: Option<usize>)
        ensures
            final(self).planned_route@ == old(self).planned_route@,
            (reached && old(self).current_route_index < old(self).planned_route.len())
                ==> final(self).current_route_index == old(self).current_route_index + 1,
            !(reached && old(self).current_route_index < old(self).planned_route.len())
                ==> final(self).current_route_index == old(self).current_route_index,
            next is Some <==> (reached && old(self).current_route_index + 1 < old(self).planned_route.len()),
            next is Some ==> next->0 == final(self).current_route_index,
    {
        if reached && self.current_route_index < self.planned_route.len() {
            self.current_route_index = self.current_route_index + 1;
            if self.current_route_index < self.planned_route.len() {
                return Some(self.current_route_index);
            }
        }
        None
    }

    /// Forgets the route.
    pub fn clear(&mut self)
        ensures
            final(self).planned_route@.len() == 0,
            final(self).current_route_index == 0,
    {
        self.planned_route = Vec::new();
        self.current_route_index = 0;
    }
}

} // verus!
