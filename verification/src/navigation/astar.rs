//! A-star (A*) route search over occupancy grid cells.
//!
//! Moves go to the 8 neighbouring cells. A move must land on a free cell, and a diagonal
//! move may not cut the corner of a blocked cell: both cells it passes between must be free.
//! Straight moves cost 1 and diagonal moves cost √2, in the double-precision value that
//! `f64::consts::SQRT_2` holds; costs are kept as exact integer multiples of 2^-52 so that
//! sums compare without rounding. The octile distance serves as heuristic.

use vstd::prelude::*;
use super::occupancy::{OccupancyGrid, GridView, grid_wf, free, in_bounds, cell_index, cell_at, lemma_cell_index, lemma_cell_at};

verus! {

/// Cost of a straight move, in units of 2^-52.
pub const STRAIGHT_COST: u128 = 4503599627370496;

/// Cost of a diagonal move, in units of 2^-52: the double-precision value of √2.
pub const DIAGONAL_COST: u128 = 6369051672525773;

/// Route planner over occupancy grid cells.
pub struct AStarPlanner;

/// The eight move directions, in the order in which the search tries them.
pub open spec fn direction(d: int) -> (int, int) {
    if d == 0 {
        (0, 1)
    } else if d == 1 {
        (0, -1)
    } else if d == 2 {
        (1, 0)
    } else if d == 3 {
        (-1, 0)
    } else if d == 4 {
        (1, 1)
    } else if d == 5 {
        (1, -1)
    } else if d == 6 {
        (-1, 1)
    } else {
        (-1, -1)
    }
}

/// The cell one move away from `p` in direction `d`.
pub open spec fn shifted(p: (int, int), d: int) -> (int, int) {
    (p.0 + direction(d).0, p.1 + direction(d).1)
}

/// A single move from `a` to `b`: to one of the 8 neighbours, onto a free cell, and for a
/// diagonal move without cutting the corner of a blocked cell.
pub open spec fn legal_step(g: GridView, a: (int, int), b: (int, int)) -> bool {
    let dx = b.0 - a.0;
    let dy = b.1 - a.1;
    &&& -1 <= dx <= 1
    &&& -1 <= dy <= 1
    &&& (dx != 0 || dy != 0)
    &&& free(g, b.0, b.1)
    &&& (dx != 0 && dy != 0 ==> free(g, a.0, b.1) && free(g, b.0, a.1))
}

/// The move from the `i`-th cell of `p` to the next one is legal.
pub open spec fn step_ok(g: GridView, p: Seq<(int, int)>, i: int) -> bool {
    legal_step(g, p[i], p[i + 1])
}

/// `p` is a route from `s` to `t`: it starts at `s`, ends at `t`, and each step is legal.
pub open spec fn is_route(g: GridView, p: Seq<(int, int)>, s: (int, int), t: (int, int)) -> bool {
    &&& p.len() >= 1
    &&& p[0] == s
    &&& p[p.len() - 1] == t
    &&& forall|i: int| 0 <= i < p.len() - 1 ==> #[trigger] step_ok(g, p, i)
}

/// Some route leads from `s` to `t`.
pub open spec fn reachable(g: GridView, s: (int, int), t: (int, int)) -> bool {
    exists|p: Seq<(int, int)>| is_route(g, p, s, t)
}

/// The coordinates of a list of cells, as integers.
pub open spec fn cells_of(v: Seq<(usize, usize)>) -> Seq<(int, int)> {
    v.map_values(|c: (usize, usize)| (c.0 as int, c.1 as int))
}

/// `q` lies in the square of radius `r` around `c`.
pub open spec fn within(c: (int, int), q: (int, int), r: int) -> bool {
    &&& c.0 - r <= q.0 <= c.0 + r
    &&& c.1 - r <= q.1 <= c.1 + r
}

/// The square of radius `r` around `c` holds a free cell.
pub open spec fn square_has_free(g: GridView, c: (int, int), r: int) -> bool {
    exists|q: (int, int)| within(c, q, r) && #[trigger] free(g, q.0, q.1)
}

/// `a` comes before `b` when a square is scanned row by row, each row from left to right.
pub open spec fn scan_before(a: (int, int), b: (int, int)) -> bool {
    a.1 < b.1 || (a.1 == b.1 && a.0 < b.0)
}

/// `p` is the free cell that the outward search from `c` finds, in the square of radius
/// `r`: the smallest radius from 1 to 19 whose square holds a free cell, and within that
/// square the first free cell in row-by-row order.
pub open spec fn nearest_free_at(g: GridView, c: (int, int), p: (int, int), r: int) -> bool {
    &&& 1 <= r < 20
    &&& within(c, p, r)
    &&& free(g, p.0, p.1)
    &&& forall|r2: int| 1 <= r2 < r ==> !#[trigger] square_has_free(g, c, r2)
    &&& forall|q: (int, int)| within(c, q, r) && scan_before(q, p) ==> !#[trigger] free(g, q.0, q.1)
}

/// `p` is the free cell found by searching outward from `c`, at some radius.
pub open spec fn is_nearest_free(g: GridView, c: (int, int), p: (int, int)) -> bool {
    exists|r: int| #[trigger] nearest_free_at(g, c, p, r)
}

/// The free cell found by searching outward from `c`, if the squares up to radius 19 hold one.
pub open spec fn nearest_free_cell(g: GridView, c: (int, int)) -> Option<(int, int)> {
    if exists|p: (int, int)| #[trigger] is_nearest_free(g, c, p) {
        Some(choose|p: (int, int)| #[trigger] is_nearest_free(g, c, p))
    } else {
        None
    }
}

/// The cell a route is planned to: the goal itself when free, else the nearest free cell.
pub open spec fn planning_target(g: GridView, goal: (int, int)) -> Option<(int, int)> {
    if free(g, goal.0, goal.1) {
        Some(goal)
    } else {
        nearest_free_cell(g, goal)
    }
}

/// What planning from `s` to `goal` returns: nothing when either end lies off the grid or
/// no free target exists; the pair (start, target) when the target is the start cell; and
/// otherwise a route to the target exactly when one exists, and then a cheapest one.
pub open spec fn plan_outcome(
    g: GridView,
    s: (int, int),
    goal: (int, int),
    route: Option<Seq<(int, int)>>,
) -> bool {
    if !(in_bounds(g, s.0, s.1) && in_bounds(g, goal.0, goal.1)) {
        route is None
    } else {
        match planning_target(g, goal) {
            None => route is None,
            Some(t) => if t == s {
                route == Some(seq![s, t])
            } else {
                &&& (route is Some <==> reachable(g, s, t))
                &&& (route matches Some(p) ==> cheapest_route(g, p, s, t))
            },
        }
    }
}

/// The step cost of direction `d`.
pub open spec fn step_cost(d: int) -> int {
    if d < 4 {
        STRAIGHT_COST as int
    } else {
        DIAGONAL_COST as int
    }
}

/// The coordinate `c + i - r`, when it is a machine index.
fn offset(c: usize, i: usize, r: usize) -> (o: Option<usize>)
    ensures
        o matches Some(v) ==> v == c + i - r,
        o is None ==> (c + i - r < 0 || c + i - r > usize::MAX),
{
    if i >= r {
        let up = i - r;
        if c <= usize::MAX - up {
            Some(c + up)
        } else {
            None
        }
    } else {
        let down = r - i;
        if c >= down {
            Some(c - down)
        } else {
            None
        }
    }
}

/// Two distinct cells, one of them first in row-by-row order.
proof fn lemma_scan_total(a: (int, int), b: (int, int))
    requires
        a != b,
    ensures
        scan_before(a, b) || scan_before(b, a),
{
}

/// The nearest free cell is unique.
proof fn lemma_nearest_free_unique(g: GridView, c: (int, int), p: (int, int), r: int)
    requires
        nearest_free_at(g, c, p, r),
    ensures
        nearest_free_cell(g, c) == Some(p),
{
    assert(is_nearest_free(g, c, p));
    let q = choose|q: (int, int)| #[trigger] is_nearest_free(g, c, q);
    let r2 = choose|r2: int| #[trigger] nearest_free_at(g, c, q, r2);
    assert(square_has_free(g, c, r)) by {
        assert(within(c, p, r) && free(g, p.0, p.1));
    }
    assert(square_has_free(g, c, r2)) by {
        assert(within(c, q, r2) && free(g, q.0, q.1));
    }
    assert(r == r2);
    if p != q {
        lemma_scan_total(p, q);
    }
}

/// Searches the squares of radius 1 to 19 around (cx, cy), each row by row, for a free cell.
pub fn find_nearest_free_cell(grid: &OccupancyGrid, cx: usize, cy: usize) -> (res: Option<(usize, usize)>)
    requires
        grid_wf(grid@),
    ensures
        res matches Some(p) ==> nearest_free_cell(grid@, (cx as int, cy as int)) == Some(
            (p.0 as int, p.1 as int),
        ),
        res is None ==> nearest_free_cell(grid@, (cx as int, cy as int)) is None,
{
    let ghost g = grid@;
    let ghost c = (cx as int, cy as int);
    let mut r: usize = 1;
    while r < 20
        invariant
            1 <= r <= 20,
            g == grid@,
            grid_wf(g),
            c == (cx as int, cy as int),
            forall|r2: int| 1 <= r2 < r ==> !#[trigger] square_has_free(g, c, r2),
        decreases 20 - r,
    {
        let side = 2 * r + 1;
        let mut i: usize = 0;
        while i < side
            invariant
                1 <= r < 20,
                side == 2 * r + 1,
                0 <= i <= side,
                g == grid@,
                grid_wf(g),
                c == (cx as int, cy as int),
                forall|r2: int| 1 <= r2 < r ==> !#[trigger] square_has_free(g, c, r2),
                forall|q: (int, int)|
                    within(c, q, r as int) && q.1 < c.1 - r + i ==> !#[trigger] free(g, q.0, q.1),
            decreases side - i,
        {
            let mut j: usize = 0;
            while j < side
                invariant
                    1 <= r < 20,
                    side == 2 * r + 1,
                    0 <= i < side,
                    0 <= j <= side,
                    g == grid@,
                    grid_wf(g),
                    c == (cx as int, cy as int),
                    forall|r2: int| 1 <= r2 < r ==> !#[trigger] square_has_free(g, c, r2),
                    forall|q: (int, int)|
                        within(c, q, r as int) && (q.1 < c.1 - r + i || (q.1 == c.1 - r + i && q.0
                            < c.0 - r + j)) ==> !#[trigger] free(g, q.0, q.1),
                decreases side - j,
            {
                let ox = offset(cx, j, r);
                let oy = offset(cy, i, r);
                let ghost here = (cx + j - r, cy + i - r);
                match (ox, oy) {
                    (Some(x), Some(y)) => {
                        if !grid.is_occupied(x, y) {
                            proof {
                                let p = (x as int, y as int);
                                assert(nearest_free_at(g, c, p, r as int)) by {
                                    assert forall|q: (int, int)|
                                        within(c, q, r as int) && scan_before(q, p) implies !#[trigger] free(
                                        g,
                                        q.0,
                                        q.1,
                                    ) by {}
                                }
                                lemma_nearest_free_unique(g, c, p, r as int);
                            }
                            return Some((x, y));
                        }
                    },
                    _ => {
                        assert(!free(g, here.0, here.1));
                    },
                }
                j = j + 1;
            }
            i = i + 1;
        }
        proof {
            assert forall|r2: int| 1 <= r2 < r + 1 implies !#[trigger] square_has_free(g, c, r2) by {
                if r2 == r {
                    if square_has_free(g, c, r2) {
                        let q = choose|q: (int, int)| within(c, q, r2) && #[trigger] free(g, q.0, q.1);
                        assert(q.1 < c.1 - r + side);
                    }
                }
            }
        }
        r = r + 1;
    }
    proof {
        if exists|p: (int, int)| #[trigger] is_nearest_free(g, c, p) {
            let p = choose|p: (int, int)| #[trigger] is_nearest_free(g, c, p);
            let r2 = choose|r2: int| #[trigger] nearest_free_at(g, c, p, r2);
            assert(square_has_free(g, c, r2)) by {
                assert(within(c, p, r2) && free(g, p.0, p.1));
            }
        }
    }
    None
}


/// The direction a neighbouring move takes.
proof fn step_direction(p: (int, int), q: (int, int)) -> (d: int)
    requires
        -1 <= q.0 - p.0 <= 1,
        -1 <= q.1 - p.1 <= 1,
        q != p,
    ensures
        0 <= d < 8,
        shifted(p, d) == q,
{
    let dx = q.0 - p.0;
    let dy = q.1 - p.1;
    if dx == 0 && dy == 1 {
        0
    } else if dx == 0 && dy == -1 {
        1
    } else if dx == 1 && dy == 0 {
        2
    } else if dx == -1 && dy == 0 {
        3
    } else if dx == 1 && dy == 1 {
        4
    } else if dx == 1 && dy == -1 {
        5
    } else if dx == -1 && dy == 1 {
        6
    } else {
        7
    }
}

/// The direction table as machine values.
fn direction_of(d: usize) -> (r: (i8, i8))
    requires
        d < 8,
    ensures
        (r.0 as int, r.1 as int) == direction(d as int),
{
    if d == 0 {
        (0, 1)
    } else if d == 1 {
        (0, -1)
    } else if d == 2 {
        (1, 0)
    } else if d == 3 {
        (-1, 0)
    } else if d == 4 {
        (1, 1)
    } else if d == 5 {
        (1, -1)
    } else if d == 6 {
        (-1, 1)
    } else {
        (-1, -1)
    }
}

/// Moves a coordinate by -1, 0 or +1 when the result is a machine index.
fn nudge(c: usize, delta: i8) -> (r: Option<usize>)
    requires
        -1 <= delta <= 1,
        c < usize::MAX,
    ensures
        r matches Some(v) ==> v == c + delta,
        r is None ==> c + delta < 0,
{
    if delta < 0 {
        if c == 0 {
            None
        } else {
            Some(c - 1)
        }
    } else if delta > 0 {
        Some(c + 1)
    } else {
        Some(c)
    }
}

/// The neighbour of (x, y) in direction `d`, when the move there is legal.
fn legal_neighbor(grid: &OccupancyGrid, x: usize, y: usize, d: usize) -> (r: Option<(usize, usize)>)
    requires
        grid_wf(grid@),
        in_bounds(grid@, x as int, y as int),
        d < 8,
    ensures
        r matches Some(q) ==> (q.0 as int, q.1 as int) == shifted((x as int, y as int), d as int)
            && legal_step(grid@, (x as int, y as int), (q.0 as int, q.1 as int)),
        r is None ==> !legal_step(grid@, (x as int, y as int), shifted((x as int, y as int), d as int)),
{
    let (dx, dy) = direction_of(d);
    let nx = match nudge(x, dx) {
        Some(v) => v,
        None => return None,
    };
    let ny = match nudge(y, dy) {
        Some(v) => v,
        None => return None,
    };
    if grid.is_occupied(nx, ny) {
        return None;
    }
    // Prevent cutting through corners of obstacles diagonally
    if dx != 0 && dy != 0 {
        if grid.is_occupied(x, ny) || grid.is_occupied(nx, y) {
            return None;
        }
    }
    Some((nx, ny))
}

/// The octile distance between two cells, in cost units.
pub open spec fn octile(a: (int, int), b: (int, int)) -> int {
    let dx = if a.0 >= b.0 { a.0 - b.0 } else { b.0 - a.0 };
    let dy = if a.1 >= b.1 { a.1 - b.1 } else { b.1 - a.1 };
    let lo = if dx <= dy { dx } else { dy };
    let hi = if dx <= dy { dy } else { dx };
    (hi - lo) * STRAIGHT_COST + lo * DIAGONAL_COST
}

/// The cost of a move from `a` to a neighbouring cell `b`.
pub open spec fn move_cost(a: (int, int), b: (int, int)) -> int {
    if a.0 == b.0 || a.1 == b.1 {
        STRAIGHT_COST as int
    } else {
        DIAGONAL_COST as int
    }
}

/// The cost of a route: the sum of the costs of its moves.
pub open spec fn path_cost(p: Seq<(int, int)>) -> int
    decreases p.len(),
{
    if p.len() <= 1 {
        0
    } else {
        path_cost(p.drop_last()) + move_cost(p[p.len() - 2], p.last())
    }
}

/// `p` is a route from `s` to `t` that costs no more than any other such route.
pub open spec fn cheapest_route(g: GridView, p: Seq<(int, int)>, s: (int, int), t: (int, int)) -> bool {
    &&& is_route(g, p, s, t)
    &&& forall|q: Seq<(int, int)>| #[trigger] is_route(g, q, s, t) ==> path_cost(p) <= path_cost(q)
}

proof fn lemma_step_cost(p: (int, int), d: int)
    requires
        0 <= d < 8,
    ensures
        move_cost(p, shifted(p, d)) == step_cost(d),
{
}

/// The octile distance never drops by more than the cost of one move.
proof fn lemma_octile_step(a: (int, int), b: (int, int), t: (int, int))
    requires
        -1 <= b.0 - a.0 <= 1,
        -1 <= b.1 - a.1 <= 1,
        a != b,
    ensures
        octile(a, t) <= move_cost(a, b) + octile(b, t),
{
}

proof fn lemma_path_cost_nonneg(p: Seq<(int, int)>)
    ensures
        path_cost(p) >= 0,
    decreases p.len(),
{
    if p.len() > 1 {
        lemma_path_cost_nonneg(p.drop_last());
    }
}

/// Along a route the octile distance to `t` drops by at most the route's cost.
proof fn lemma_route_consistent(g: GridView, p: Seq<(int, int)>, a: (int, int), b: (int, int), t: (int, int))
    requires
        is_route(g, p, a, b),
    ensures
        octile(a, t) <= path_cost(p) + octile(b, t),
    decreases p.len(),
{
    if p.len() > 1 {
        let q = p.drop_last();
        let c = p[p.len() - 2];
        assert(is_route(g, q, a, c)) by {
            assert forall|i: int| 0 <= i < q.len() - 1 implies #[trigger] step_ok(g, q, i) by {
                assert(step_ok(g, p, i));
                assert(q[i] == p[i] && q[i + 1] == p[i + 1]);
            }
        }
        lemma_route_consistent(g, q, a, c, t);
        assert(step_ok(g, p, p.len() - 2));
        lemma_octile_step(c, b, t);
    }
}

/// A route's cost splits at any of its cells.
proof fn lemma_path_split(p: Seq<(int, int)>, m: int)
    requires
        0 <= m < p.len(),
    ensures
        path_cost(p) == path_cost(p.take(m + 1)) + path_cost(p.skip(m)),
    decreases p.len(),
{
    if m == p.len() - 1 {
        assert(p.take(m + 1) =~= p);
        assert(p.skip(m).len() == 1);
    } else {
        let q = p.drop_last();
        lemma_path_split(q, m);
        assert(q.take(m + 1) =~= p.take(m + 1));
        let r = p.skip(m);
        assert(r.drop_last() =~= q.skip(m));
        assert(r[r.len() - 2] == p[p.len() - 2]);
        assert(r.last() == p.last());
    }
}

/// A route's cost is that of all but its last move, plus the last move.
proof fn lemma_path_last_move(p: Seq<(int, int)>)
    requires
        p.len() >= 2,
    ensures
        path_cost(p) == path_cost(p.drop_last()) + move_cost(p[p.len() - 2], p[p.len() - 1]),
{
}

/// A cost bounded by a route prefix plus one more move is bounded by the longer prefix.
proof fn lemma_extend_cost(r: Seq<(int, int)>, m: int, cw: int, cv: int)
    requires
        1 <= m < r.len(),
        cw <= path_cost(r.take(m)),
        cv <= cw + move_cost(r[m - 1], r[m]),
    ensures
        cv <= path_cost(r.take(m + 1)),
{
    let rm = r.take(m + 1);
    lemma_path_last_move(rm);
    assert(rm.drop_last() =~= r.take(m));
}

/// Putting a cell in front of a route adds the cost of the move to its first cell.
proof fn lemma_path_prepend(a: (int, int), p: Seq<(int, int)>)
    requires
        p.len() >= 1,
    ensures
        path_cost(seq![a] + p) == move_cost(a, p[0]) + path_cost(p),
    decreases p.len(),
{
    let ap = seq![a] + p;
    assert(ap.len() == p.len() + 1);
    assert(ap.last() == p.last());
    if p.len() == 1 {
        assert(ap.drop_last() =~= seq![a]);
        assert(ap[0] == a && ap[1] == p[0]);
        assert(path_cost(seq![a]) == 0);
    } else {
        lemma_path_prepend(a, p.drop_last());
        assert(ap.drop_last() =~= seq![a] + p.drop_last());
        assert(ap[ap.len() - 2] == p[p.len() - 2]);
        assert(p.drop_last()[0] == p[0]);
    }
}

/// The part of a route up to one of its cells is a route to that cell, and the part from
/// it on is a route from it.
proof fn lemma_route_parts(g: GridView, p: Seq<(int, int)>, s: (int, int), t: (int, int), m: int)
    requires
        is_route(g, p, s, t),
        0 <= m < p.len(),
    ensures
        is_route(g, p.take(m + 1), s, p[m]),
        is_route(g, p.skip(m), p[m], t),
{
    let a = p.take(m + 1);
    let b = p.skip(m);
    assert forall|i: int| 0 <= i < a.len() - 1 implies #[trigger] step_ok(g, a, i) by {
        assert(step_ok(g, p, i));
        assert(a[i] == p[i] && a[i + 1] == p[i + 1]);
    }
    assert forall|i: int| 0 <= i < b.len() - 1 implies #[trigger] step_ok(g, b, i) by {
        assert(step_ok(g, p, i + m));
        assert(b[i] == p[i + m] && b[i + 1] == p[i + m + 1]);
    }
}

/// Octile distance heuristic for the 8-connected grid.
fn heuristic(x1: usize, y1: usize, x2: usize, y2: usize) -> (h: u128)
    ensures
        h == octile((x1 as int, y1 as int), (x2 as int, y2 as int)),
        h <= usize::MAX * DIAGONAL_COST,
{
    let dx = if x1 >= x2 { x1 - x2 } else { x2 - x1 };
    let dy = if y1 >= y2 { y1 - y2 } else { y2 - y1 };
    let lo = if dx <= dy { dx } else { dy };
    let hi = if dx <= dy { dy } else { dx };
    assert((hi - lo) * STRAIGHT_COST + lo * DIAGONAL_COST <= hi * DIAGONAL_COST) by (nonlinear_arith)
        requires
            lo <= hi,
    ;
    assert(hi * DIAGONAL_COST <= usize::MAX * DIAGONAL_COST) by (nonlinear_arith)
        requires
            hi <= usize::MAX,
    ;
    (hi - lo) as u128 * STRAIGHT_COST + lo as u128 * DIAGONAL_COST
}

/// Removes and returns the first entry of least cost.
fn pop_cheapest(open: &mut Vec<(u128, usize, usize)>) -> (r: (usize, (u128, usize, usize)))
    requires
        old(open).len() > 0,
    ensures
        r.0 < old(open).len(),
        r.1 == old(open)@[r.0 as int],
        final(open)@ == old(open)@.remove(r.0 as int),
        forall|j: int| 0 <= j < old(open).len() ==> r.1.0 <= #[trigger] old(open)@[j].0,
        forall|j: int| 0 <= j < r.0 ==> r.1.0 < #[trigger] old(open)@[j].0,
{
    let mut best: usize = 0;
    let mut k: usize = 1;
    while k < open.len()
        invariant
            0 <= best < k <= open.len(),
            open@ == old(open)@,
            forall|j: int| 0 <= j < k ==> open@[best as int].0 <= #[trigger] open@[j].0,
            forall|j: int| 0 <= j < best ==> open@[best as int].0 < #[trigger] open@[j].0,
        decreases open.len() - k,
    {
        if open[k].0 < open[best].0 {
            best = k;
        }
        k = k + 1;
    }
    let e = open.remove(best);
    (best, e)
}

/// Bookkeeping of one search: which cells were reached and at what cost, through which
/// parent, which were expanded (closed) and in what order, and the frontier.
struct Search {
    known: Vec<bool>,
    cost: Vec<u128>,
    has_parent: Vec<bool>,
    parent_x: Vec<usize>,
    parent_y: Vec<usize>,
    closed: Vec<bool>,
    open: Vec<(u128, usize, usize)>,
    closed_count: usize,
    /// Position of each closed cell in the order of expansion.
    rank: Ghost<Seq<int>>,
    /// The indices of the closed cells.
    closed_set: Ghost<Set<int>>,
}

/// The index of a cell given as a coordinate pair.
spec fn idx(g: GridView, p: (int, int)) -> int {
    cell_index(g, p.0, p.1)
}

impl Search {
    /// The parent recorded for the cell stored at `i`.
    spec fn parent_of(&self, i: int) -> (int, int) {
        (self.parent_x@[i] as int, self.parent_y@[i] as int)
    }

    /// Some frontier entry names cell `p`.
    spec fn in_open(&self, p: (int, int)) -> bool {
        exists|k: int| 0 <= k < self.open.len() && #[trigger] self.open@[k].1 == p.0 && self.open@[k].2 == p.1
    }

    /// The expansion order position used to bound parent chains.
    spec fn depth(&self, i: int) -> int {
        if self.closed@[i] {
            self.rank@[i]
        } else {
            self.closed_count as int
        }
    }

    /// What holds of the cell stored at `i`. The neighbours of `cur` are only known for
    /// the directions below `done`; every other closed cell has all its neighbours known.
    /// The cell stored at `waived` may be missing from the frontier.
    #[verifier::opaque]
    spec fn cell_ok(&self, g: GridView, s: (int, int), i: int, cur: int, done: int, waived: int) -> bool {
        let p = cell_at(g, i);
        let count = self.closed_count as int;
        &&& self.closed@[i] ==> self.known@[i] && 0 <= self.rank@[i] < count
        &&& self.known@[i] && i != idx(g, s) ==> self.has_parent@[i]
        &&& self.has_parent@[i] ==> {
            let q = self.parent_of(i);
            &&& in_bounds(g, q.0, q.1)
            &&& self.closed@[idx(g, q)]
            &&& legal_step(g, q, p)
            &&& self.rank@[idx(g, q)] < self.depth(i)
            &&& self.cost@[i] == self.cost@[idx(g, q)] + move_cost(q, p)
        }
        &&& i == idx(g, s) ==> self.cost@[i] == 0
        &&& self.known@[i] ==> self.cost@[i] <= count * DIAGONAL_COST
        &&& self.closed@[i] ==> forall|r: Seq<(int, int)>| #[trigger] is_route(g, r, s, p) ==> self.cost@[i] <= path_cost(r)
        &&& self.closed@[i] ==> forall|d: int|
            0 <= d < 8 && (i != cur || d < done) && legal_step(g, p, shifted(p, d))
                ==> self.known@[idx(g, #[trigger] shifted(p, d))] && (!self.closed@[idx(g, shifted(p, d))]
                ==> self.cost@[idx(g, shifted(p, d))] <= self.cost@[i] + step_cost(d))
        &&& self.known@[i] && !self.closed@[i] && i != waived ==> self.in_open(p)
        &&& count == 0 && self.known@[i] ==> i == idx(g, s)
    }

    /// The frontier holds an entry for the cell stored at `i` whose estimate is its current
    /// cost plus its octile distance to `t`.
    spec fn has_entry(&self, g: GridView, t: (int, int), i: int) -> bool {
        let p = cell_at(g, i);
        exists|k: int|
            0 <= k < self.open.len() && #[trigger] self.open@[k].1 == p.0 && self.open@[k].2 == p.1
                && self.open@[k].0 == self.cost@[i] + octile(p, t)
    }

    /// The search invariant, with the neighbours of `cur` known only below direction `done`
    /// and the cell stored at `waived` possibly missing from the frontier.
    spec fn inv_at(&self, g: GridView, s: (int, int), t: (int, int), cur: int, done: int, waived: int) -> bool {
        let n = g.width * g.height;
        &&& grid_wf(g)
        &&& self.known.len() == n
        &&& self.cost.len() == n
        &&& self.has_parent.len() == n
        &&& self.parent_x.len() == n
        &&& self.parent_y.len() == n
        &&& self.closed.len() == n
        &&& self.rank@.len() == n
        &&& in_bounds(g, s.0, s.1)
        &&& in_bounds(g, t.0, t.1)
        &&& s != t
        &&& self.known@[idx(g, s)]
        &&& !self.has_parent@[idx(g, s)]
        &&& !self.closed@[idx(g, t)]
        &&& self.closed_count > 0 ==> self.closed@[idx(g, s)]
        &&& self.closed_set@.finite()
        &&& self.closed_set@.len() == self.closed_count
        &&& forall|i: int| #[trigger] self.closed_set@.contains(i) <==> (0 <= i < n && self.closed@[i])
        &&& forall|k: int|
            0 <= k < self.open.len() ==> in_bounds(g, #[trigger] self.open@[k].1 as int, self.open@[k].2 as int)
                && self.known@[cell_index(g, self.open@[k].1 as int, self.open@[k].2 as int)]
                && self.open@[k].0 >= self.cost@[cell_index(g, self.open@[k].1 as int, self.open@[k].2 as int)]
                + octile((self.open@[k].1 as int, self.open@[k].2 as int), t)
        &&& forall|i: int| 0 <= i < n ==> #[trigger] self.cell_ok(g, s, i, cur, done, waived)
        &&& forall|i: int|
            0 <= i < n && self.known@[i] && !self.closed@[i] && i != waived ==> #[trigger] self.has_entry(g, t, i)
    }

    /// The search invariant.
    spec fn inv(&self, g: GridView, s: (int, int), t: (int, int)) -> bool {
        self.inv_at(g, s, t, -1, 0, -1)
    }

    /// A measure that every expansion step decreases.
    spec fn measure(&self, g: GridView) -> int {
        (g.width * g.height - self.closed_count) * 9 + self.open.len()
    }
}


/// A finite set of indices below `n` has at most `n` members.
proof fn lemma_index_set_len(cs: Set<int>, n: int)
    requires
        n >= 0,
        cs.finite(),
        forall|i: int| #[trigger] cs.contains(i) ==> 0 <= i < n,
    ensures
        cs.len() <= n,
{
    vstd::set_lib::lemma_int_range(0, n);
    vstd::set_lib::lemma_len_subset(cs, vstd::set_lib::set_int_range(0, n));
}

impl Search {
    /// Closed cells never outnumber the grid's cells.
    proof fn lemma_count_bound(&self, g: GridView, s: (int, int), t: (int, int), cur: int, done: int, w: int)
        requires
            self.inv_at(g, s, t, cur, done, w),
        ensures
            self.closed_count <= g.width * g.height,
            self.measure(g) >= 0,
    {
        lemma_index_set_len(self.closed_set@, (g.width * g.height) as int);
    }

    /// A fresh search from `s` towards `t`: only `s` is known, at cost 0, and it is the
    /// only frontier entry.
    fn start(grid: &OccupancyGrid, sx: usize, sy: usize, tx: usize, ty: usize) -> (st: Search)
        requires
            grid_wf(grid@),
            in_bounds(grid@, sx as int, sy as int),
            in_bounds(grid@, tx as int, ty as int),
            (sx, sy) != (tx, ty),
        ensures
            st.inv(grid@, (sx as int, sy as int), (tx as int, ty as int)),
            st.closed_count == 0,
    {
        reveal(Search::cell_ok);
        let ghost g = grid@;
        let ghost s = (sx as int, sy as int);
        let ghost t = (tx as int, ty as int);
        let w = grid.width_cells();
        let h = grid.height_cells();
        let n = w * h;
        proof {
            lemma_cell_index(g, sx as int, sy as int);
            lemma_cell_index(g, tx as int, ty as int);
            assert(sy * w <= sy * w + sx);
        }
        let sid = sy * w + sx;
        let mut known = vec![false; n];
        known.set(sid, true);
        let cost: Vec<u128> = vec![0; n];
        let has_parent = vec![false; n];
        let parent_x: Vec<usize> = vec![0; n];
        let parent_y: Vec<usize> = vec![0; n];
        let closed = vec![false; n];
        let mut open: Vec<(u128, usize, usize)> = Vec::new();
        open.push((heuristic(sx, sy, tx, ty), sx, sy));
        let st = Search {
            known,
            cost,
            has_parent,
            parent_x,
            parent_y,
            closed,
            open,
            closed_count: 0,
            rank: Ghost(Seq::new(n as nat, |i: int| 0)),
            closed_set: Ghost(Set::empty()),
        };
        proof {
            assert(idx(g, s) == sid);
            assert(idx(g, t) != sid) by {
                lemma_cell_at(g, idx(g, t));
            }
            assert forall|i: int| 0 <= i < n implies #[trigger] st.cell_ok(g, s, i, -1, 0, -1) by {
                if i == sid {
                    assert(cell_at(g, i) == s);
                    assert(st.open@[0].1 == s.0 && st.open@[0].2 == s.1);
                }
            }
            assert(st.open@[0].1 == sx);
        }
        st
    }

    /// Every cell of a route from `s` is known, when the frontier is empty.
    proof fn lemma_route_known(&self, g: GridView, s: (int, int), t: (int, int), p: Seq<(int, int)>, k: int)
        requires
            self.inv(g, s, t),
            self.open.len() == 0,
            is_route(g, p, s, t),
            0 <= k < p.len(),
        ensures
            in_bounds(g, p[k].0, p[k].1),
            self.known@[idx(g, p[k])],
        decreases k,
    {
        reveal(Search::cell_ok);
        if k > 0 {
            self.lemma_route_known(g, s, t, p, k - 1);
            let a = p[k - 1];
            let b = p[k];
            assert(step_ok(g, p, k - 1));
            assert(legal_step(g, a, b));
            let i = idx(g, a);
            lemma_cell_index(g, a.0, a.1);
            assert(self.cell_ok(g, s, i, -1, 0, -1));
            if !self.closed@[i] {
                assert(self.in_open(cell_at(g, i)));
                assert(false);
            }
            let d = step_direction(a, b);
            assert(self.known@[idx(g, shifted(a, d))]);
        }
    }

    /// With an empty frontier every known cell is closed, the closed cells hold all the
    /// neighbours they can move to, and the target is not among them: no route reaches it.
    proof fn lemma_exhausted(&self, g: GridView, s: (int, int), t: (int, int))
        requires
            self.inv(g, s, t),
            self.open.len() == 0,
        ensures
            !reachable(g, s, t),
    {
        reveal(Search::cell_ok);
        if reachable(g, s, t) {
            let p = choose|p: Seq<(int, int)>| is_route(g, p, s, t);
            self.lemma_route_known(g, s, t, p, p.len() - 1);
            lemma_cell_index(g, t.0, t.1);
            assert(self.cell_ok(g, s, idx(g, t), -1, 0, -1));
            assert(self.in_open(cell_at(g, idx(g, t))));
        }
    }
}


impl Search {
    /// On a route from the closed start to a cell that is not closed, some move leaves the
    /// closed cells: from a closed cell to one that is not.
    proof fn lemma_cut(&self, g: GridView, s: (int, int), t: (int, int), r: Seq<(int, int)>, j: int) -> (m: int)
        requires
            self.inv(g, s, t),
            r.len() >= 1,
            r[0] == s,
            forall|i: int| 0 <= i < r.len() - 1 ==> #[trigger] step_ok(g, r, i),
            0 < j < r.len(),
            self.closed@[idx(g, s)],
            !self.closed@[idx(g, r[j])],
        ensures
            1 <= m <= j,
            self.closed@[idx(g, r[m - 1])],
            !self.closed@[idx(g, r[m])],
        decreases j,
    {
        if self.closed@[idx(g, r[j - 1])] {
            j
        } else {
            assert(j - 1 != 0);
            self.lemma_cut(g, s, t, r, j - 1)
        }
    }

    /// A closed cell costs no more than any route to it.
    proof fn lemma_closed_optimal(&self, g: GridView, s: (int, int), t: (int, int), w: (int, int), r: Seq<(int, int)>)
        requires
            self.inv(g, s, t),
            in_bounds(g, w.0, w.1),
            self.closed@[idx(g, w)],
            is_route(g, r, s, w),
        ensures
            self.cost@[idx(g, w)] <= path_cost(r),
    {
        reveal(Search::cell_ok);
        lemma_cell_index(g, w.0, w.1);
        assert(self.cell_ok(g, s, idx(g, w), -1, 0, -1));
        assert(is_route(g, r, s, cell_at(g, idx(g, w))));
    }

    /// A closed cell's legal neighbours are known, and those not closed cost no more than
    /// a move from it.
    proof fn lemma_closed_neighbor(&self, g: GridView, s: (int, int), t: (int, int), w: (int, int), v: (int, int))
        requires
            self.inv(g, s, t),
            in_bounds(g, w.0, w.1),
            self.closed@[idx(g, w)],
            legal_step(g, w, v),
        ensures
            self.known@[idx(g, v)],
            !self.closed@[idx(g, v)] ==> self.cost@[idx(g, v)] <= self.cost@[idx(g, w)] + move_cost(w, v),
    {
        reveal(Search::cell_ok);
        lemma_cell_index(g, w.0, w.1);
        assert(self.cell_ok(g, s, idx(g, w), -1, 0, -1));
        let d = step_direction(w, v);
        lemma_step_cost(w, d);
        assert(self.known@[idx(g, shifted(cell_at(g, idx(g, w)), d))]);
    }

    /// The start costs nothing, and before any expansion it is the only known cell.
    proof fn lemma_start_facts(&self, g: GridView, s: (int, int), t: (int, int), i: int)
        requires
            self.inv(g, s, t),
            0 <= i < g.width * g.height,
        ensures
            self.cost@[idx(g, s)] == 0,
            self.closed_count == 0 && self.known@[i] ==> i == idx(g, s),
    {
        reveal(Search::cell_ok);
        lemma_cell_index(g, s.0, s.1);
        assert(self.cell_ok(g, s, i, -1, 0, -1));
        assert(self.cell_ok(g, s, idx(g, s), -1, 0, -1));
    }

    /// The cell of the cheapest frontier entry, when not yet closed, is reached at the least
    /// cost of any route: a cheaper route would leave the closed cells through a frontier
    /// cell whose entry, by the consistency of the octile distance, would be cheaper still.
    proof fn lemma_cheapest_pop(&self, g: GridView, s: (int, int), t: (int, int), f: int, u: (int, int), r: Seq<(int, int)>)
        requires
            self.inv(g, s, t),
            in_bounds(g, u.0, u.1),
            self.known@[idx(g, u)],
            !self.closed@[idx(g, u)],
            f >= self.cost@[idx(g, u)] + octile(u, t),
            forall|k: int| 0 <= k < self.open.len() ==> f <= #[trigger] self.open@[k].0,
            is_route(g, r, s, u),
        ensures
            self.cost@[idx(g, u)] <= path_cost(r),
    {
        lemma_path_cost_nonneg(r);
        lemma_cell_index(g, s.0, s.1);
        lemma_cell_index(g, u.0, u.1);
        self.lemma_start_facts(g, s, t, idx(g, u));
        if self.closed_count == 0 {
            assert(idx(g, u) == idx(g, s));
        } else {
            if r.len() == 1 {
                assert(u == s);
            }
            let m = self.lemma_cut(g, s, t, r, r.len() - 1);
            let w = r[m - 1];
            let v = r[m];
            let vi = idx(g, v);
            assert(step_ok(g, r, m - 1));
            if m > 1 {
                assert(step_ok(g, r, m - 2));
            }
            lemma_route_parts(g, r, s, u, m - 1);
            lemma_cell_index(g, v.0, v.1);
            self.lemma_closed_optimal(g, s, t, w, r.take(m));
            self.lemma_closed_neighbor(g, s, t, w, v);
            lemma_extend_cost(r, m, self.cost@[idx(g, w)] as int, self.cost@[vi] as int);
            assert(self.has_entry(g, t, vi));
            let kv = choose|kv: int|
                0 <= kv < self.open.len() && #[trigger] self.open@[kv].1 == cell_at(g, vi).0 && self.open@[kv].2
                    == cell_at(g, vi).1 && self.open@[kv].0 == self.cost@[vi] + octile(cell_at(g, vi), t);
            assert(f <= self.open@[kv].0);
            lemma_route_parts(g, r, s, u, m);
            lemma_route_consistent(g, r.skip(m), v, u, t);
            lemma_path_split(r, m);
        }
    }

    /// Removes the cheapest frontier entry; its cell is known and may now be missing from
    /// the frontier. If that cell is not closed yet, its cost is the least of any route.
    fn pop_entry(
        &mut self,
        Ghost(g): Ghost<GridView>,
        Ghost(s): Ghost<(int, int)>,
        Ghost(t): Ghost<(int, int)>,
    ) -> (e: (u128, usize, usize))
        requires
            old(self).inv(g, s, t),
            old(self).open.len() > 0,
        ensures
            in_bounds(g, e.1 as int, e.2 as int),
            final(self).known@[cell_index(g, e.1 as int, e.2 as int)],
            final(self).inv_at(g, s, t, -1, 0, cell_index(g, e.1 as int, e.2 as int)),
            final(self).open.len() == old(self).open.len() - 1,
            final(self).closed_count == old(self).closed_count,
            final(self).closed@ == old(self).closed@,
            final(self).cost@ == old(self).cost@,
            !final(self).closed@[cell_index(g, e.1 as int, e.2 as int)] ==> forall|r: Seq<(int, int)>|
                #[trigger] is_route(g, r, s, (e.1 as int, e.2 as int)) ==> final(self).cost@[cell_index(
                    g,
                    e.1 as int,
                    e.2 as int,
                )] <= path_cost(r),
    {
        reveal(Search::cell_ok);
        let ghost old_open = self.open@;
        let (k, e) = pop_cheapest(&mut self.open);
        proof {
            let n = g.width * g.height;
            let pi = cell_index(g, e.1 as int, e.2 as int);
            let u = (e.1 as int, e.2 as int);
            assert(in_bounds(g, old_open[k as int].1 as int, old_open[k as int].2 as int));
            lemma_cell_index(g, e.1 as int, e.2 as int);
            if !self.closed@[pi] {
                assert forall|r: Seq<(int, int)>| #[trigger] is_route(g, r, s, u) implies self.cost@[pi] <= path_cost(r) by {
                    old(self).lemma_cheapest_pop(g, s, t, e.0 as int, u, r);
                }
            }
            assert forall|j: int| 0 <= j < self.open.len() implies in_bounds(
                g,
                #[trigger] self.open@[j].1 as int,
                self.open@[j].2 as int,
            ) && self.known@[cell_index(g, self.open@[j].1 as int, self.open@[j].2 as int)]
                && self.open@[j].0 >= self.cost@[cell_index(g, self.open@[j].1 as int, self.open@[j].2 as int)]
                + octile((self.open@[j].1 as int, self.open@[j].2 as int), t) by {
                if j < k {
                    assert(self.open@[j] == old_open[j]);
                } else {
                    assert(self.open@[j] == old_open[j + 1]);
                }
            }
            assert forall|i: int| 0 <= i < n implies #[trigger] self.cell_ok(g, s, i, -1, 0, pi) by {
                assert(old(self).cell_ok(g, s, i, -1, 0, -1));
                let c = cell_at(g, i);
                if self.known@[i] && !self.closed@[i] && i != pi {
                    assert(old(self).in_open(c));
                    let kk = choose|kk: int|
                        0 <= kk < old_open.len() && #[trigger] old_open[kk].1 == c.0 && old_open[kk].2 == c.1;
                    lemma_cell_at(g, i);
                    if kk == k {
                        assert(c == (e.1 as int, e.2 as int));
                        assert(false);
                    } else if kk < k {
                        assert(self.open@[kk] == old_open[kk]);
                    } else {
                        assert(self.open@[kk - 1] == old_open[kk]);
                    }
                }
            }
            assert forall|i: int|
                0 <= i < n && self.known@[i] && !self.closed@[i] && i != pi implies #[trigger] self.has_entry(g, t, i) by {
                assert(old(self).has_entry(g, t, i));
                let c = cell_at(g, i);
                let kk = choose|kk: int|
                    0 <= kk < old_open.len() && #[trigger] old_open[kk].1 == c.0 && old_open[kk].2 == c.1
                        && old_open[kk].0 == self.cost@[i] + octile(c, t);
                lemma_cell_at(g, i);
                if kk == k {
                    assert(c == (e.1 as int, e.2 as int));
                    assert(false);
                } else if kk < k {
                    assert(self.open@[kk] == old_open[kk]);
                } else {
                    assert(self.open@[kk - 1] == old_open[kk]);
                }
            }
        }
        e
    }

    /// Closes the popped cell: it takes the next position in the expansion order.
    fn close_cell(
        &mut self,
        pi: usize,
        Ghost(g): Ghost<GridView>,
        Ghost(s): Ghost<(int, int)>,
        Ghost(t): Ghost<(int, int)>,
    )
        requires
            old(self).inv_at(g, s, t, -1, 0, pi as int),
            0 <= pi < g.width * g.height,
            old(self).known@[pi as int],
            !old(self).closed@[pi as int],
            pi != idx(g, t),
            forall|r: Seq<(int, int)>| #[trigger] is_route(g, r, s, cell_at(g, pi as int)) ==> old(self).cost@[pi as int]
                <= path_cost(r),
        ensures
            final(self).inv_at(g, s, t, pi as int, 0, -1),
            final(self).closed@[pi as int],
            final(self).closed_count == old(self).closed_count + 1,
            final(self).open@ == old(self).open@,
            final(self).cost@ == old(self).cost@,
            final(self).cost@[pi as int] + DIAGONAL_COST <= final(self).closed_count * DIAGONAL_COST,
    {
        reveal(Search::cell_ok);
        let ghost n = g.width * g.height;
        let ghost count = self.closed_count as int;
        proof {
            self.lemma_count_bound(g, s, t, -1, 0, pi as int);
            assert(!self.closed_set@.contains(pi as int));
            lemma_index_set_len(self.closed_set@.insert(pi as int), n as int);
            assert(self.cell_ok(g, s, pi as int, -1, 0, pi as int));
        }
        self.closed.set(pi, true);
        self.rank = Ghost(self.rank@.update(pi as int, count));
        self.closed_set = Ghost(self.closed_set@.insert(pi as int));
        self.closed_count = self.closed_count + 1;
        proof {
            let sid = idx(g, s);
            if count == 0 {
                assert(old(self).cell_ok(g, s, pi as int, -1, 0, pi as int));
                assert(pi == sid);
            }
            assert(self.cost@[pi as int] + DIAGONAL_COST <= self.closed_count * DIAGONAL_COST) by (nonlinear_arith)
                requires
                    self.cost@[pi as int] <= count * DIAGONAL_COST,
                    self.closed_count == count + 1,
            ;
            lemma_cell_index(g, s.0, s.1);
            lemma_cell_index(g, t.0, t.1);
            assert(!self.closed@[idx(g, t)]);
            assert(self.closed@[sid]);
            assert(self.closed_set@.len() == self.closed_count);
            assert forall|k: int|
                0 <= k < self.open.len() implies in_bounds(g, #[trigger] self.open@[k].1 as int, self.open@[k].2 as int)
                    && self.known@[cell_index(g, self.open@[k].1 as int, self.open@[k].2 as int)]
                    && self.open@[k].0 >= self.cost@[cell_index(g, self.open@[k].1 as int, self.open@[k].2 as int)]
                    + octile((self.open@[k].1 as int, self.open@[k].2 as int), t) by {
                assert(self.open@[k] == old(self).open@[k]);
            }
            assert forall|i: int|
                0 <= i < n && self.known@[i] && !self.closed@[i] && i != -1 implies #[trigger] self.has_entry(g, t, i) by {
                assert(old(self).has_entry(g, t, i));
                let c = cell_at(g, i);
                let kk = choose|kk: int|
                    0 <= kk < old(self).open.len() && #[trigger] old(self).open@[kk].1 == c.0 && old(self).open@[kk].2 == c.1
                        && old(self).open@[kk].0 == old(self).cost@[i] + octile(c, t);
                assert(self.open@[kk] == old(self).open@[kk]);
            }
            assert forall|i: int| #[trigger] self.closed_set@.contains(i) <==> (0 <= i < n && self.closed@[i]) by {
                assert(old(self).closed_set@.contains(i) <==> (0 <= i < n && old(self).closed@[i]));
            }
            assert forall|i: int| 0 <= i < n implies #[trigger] self.cell_ok(g, s, i, pi as int, 0, -1) by {
                assert(old(self).cell_ok(g, s, i, -1, 0, pi as int));
                if self.known@[i] {
                    assert(self.cost@[i] <= self.closed_count * DIAGONAL_COST) by (nonlinear_arith)
                        requires
                            self.cost@[i] <= count * DIAGONAL_COST,
                            self.closed_count == count + 1,
                    ;
                }
                let c = cell_at(g, i);
                let cnt = self.closed_count as int;
                assert(self.closed@[i] ==> self.known@[i] && 0 <= self.rank@[i] < cnt);
                assert(self.known@[i] && i != idx(g, s) ==> self.has_parent@[i]);
                if self.has_parent@[i] {
                    let q = self.parent_of(i);
                    assert(in_bounds(g, q.0, q.1));
                    lemma_cell_index(g, q.0, q.1);
                    assert(old(self).closed@[idx(g, q)]);
                    assert(idx(g, q) != pi);
                    assert(self.closed@[idx(g, q)]);
                    assert(legal_step(g, q, c));
                    assert(self.rank@[idx(g, q)] < self.depth(i));
                }
                if self.closed@[i] && i != pi {
                    assert forall|d: int|
                        0 <= d < 8 && legal_step(g, c, shifted(c, d)) implies self.known@[idx(g, #[trigger] shifted(c, d))]
                            && (!self.closed@[idx(g, shifted(c, d))] ==> self.cost@[idx(g, shifted(c, d))] <= self.cost@[i]
                            + step_cost(d)) by {
                        let z = shifted(c, d);
                        lemma_cell_index(g, z.0, z.1);
                        assert(old(self).known@[idx(g, z)]);
                        if idx(g, z) != pi {
                            assert(self.closed@[idx(g, z)] == old(self).closed@[idx(g, z)]);
                        }
                    }
                }
                if i == pi {
                    lemma_cell_at(g, i);
                }
                if self.known@[i] && !self.closed@[i] {
                    assert(i != pi);
                    assert(old(self).in_open(c));
                    let kk = choose|kk: int|
                        0 <= kk < old(self).open.len() && #[trigger] old(self).open@[kk].1 == c.0
                            && old(self).open@[kk].2 == c.1;
                    assert(self.open@[kk] == old(self).open@[kk]);
                    assert(self.in_open(c));
                }
                assert(cnt == 0 && self.known@[i] ==> i == idx(g, s));
            }
        }
    }
}


impl Search {
    /// Tries the move from the closed cell (x, y) in direction `d`: a cheaper way to an open
    /// neighbour is recorded, with (x, y) as its parent, and the neighbour joins the frontier.
    fn relax(
        &mut self,
        grid: &OccupancyGrid,
        x: usize,
        y: usize,
        d: usize,
        tx: usize,
        ty: usize,
        Ghost(s): Ghost<(int, int)>,
    )
        requires
            old(self).inv_at(grid@, s, (tx as int, ty as int), cell_index(grid@, x as int, y as int), d as int, -1),
            d < 8,
            in_bounds(grid@, x as int, y as int),
            old(self).closed@[cell_index(grid@, x as int, y as int)],
            old(self).cost@[cell_index(grid@, x as int, y as int)] + DIAGONAL_COST <= old(self).closed_count
                * DIAGONAL_COST,
        ensures
            final(self).inv_at(grid@, s, (tx as int, ty as int), cell_index(grid@, x as int, y as int), d + 1, -1),
            final(self).open.len() <= old(self).open.len() + 1,
            final(self).closed_count == old(self).closed_count,
            final(self).closed@ == old(self).closed@,
            final(self).cost@[cell_index(grid@, x as int, y as int)] == old(self).cost@[cell_index(
                grid@,
                x as int,
                y as int,
            )],
    {
        reveal(Search::cell_ok);
        let ghost g = grid@;
        let ghost t = (tx as int, ty as int);
        let ghost p = (x as int, y as int);
        let ghost pi = cell_index(g, x as int, y as int);
        let ghost n = g.width * g.height;
        let w = grid.width_cells();
        proof {
            lemma_cell_index(g, x as int, y as int);
            assert(self.cell_ok(g, s, pi, pi, d as int, -1));
            self.lemma_count_bound(g, s, t, pi, d as int, -1);
        }
        match legal_neighbor(grid, x, y, d) {
            None => {
                proof {
                    assert forall|k: int| 0 <= k < n implies #[trigger] self.cell_ok(g, s, k, pi, d + 1, -1) by {
                        assert(self.cell_ok(g, s, k, pi, d as int, -1));
                    }
                }
            },
            Some((nx, ny)) => {
                let ghost q = (nx as int, ny as int);
                proof {
                    lemma_cell_index(g, nx as int, ny as int);
                    assert(ny * w <= ny * w + nx);
                    assert(y * w <= y * w + x);
                    lemma_step_cost(p, d as int);
                }
                let j = ny * w + nx;
                let i = y * w + x;
                if self.closed[j] {
                    proof {
                        assert(self.cell_ok(g, s, j as int, pi, d as int, -1));
                        assert forall|k: int| 0 <= k < n implies #[trigger] self.cell_ok(g, s, k, pi, d + 1, -1) by {
                            assert(self.cell_ok(g, s, k, pi, d as int, -1));
                        }
                    }
                    return;
                }
                let step = if d < 4 {
                    STRAIGHT_COST
                } else {
                    DIAGONAL_COST
                };
                proof {
                    assert(self.closed_count * DIAGONAL_COST <= usize::MAX * DIAGONAL_COST) by (nonlinear_arith)
                        requires
                            self.closed_count <= usize::MAX,
                    ;
                }
                let tentative = self.cost[i] + step;
                if !self.known[j] || tentative < self.cost[j] {
                    let ghost before = *self;
                    self.known.set(j, true);
                    self.cost.set(j, tentative);
                    self.has_parent.set(j, true);
                    self.parent_x.set(j, x);
                    self.parent_y.set(j, y);
                    let hq = heuristic(nx, ny, tx, ty);
                    self.open.push((tentative + hq, nx, ny));
                    proof {
                        self.lemma_relaxed(before, g, s, t, p, d as int, q);
                    }
                } else {
                    proof {
                        assert(self.known@[j as int]);
                        assert forall|k: int| 0 <= k < n implies #[trigger] self.cell_ok(g, s, k, pi, d + 1, -1) by {
                            assert(self.cell_ok(g, s, k, pi, d as int, -1));
                            let c = cell_at(g, k);
                            if k == pi && self.closed@[k] {
                                assert forall|dd: int|
                                    0 <= dd < 8 && (k != pi || dd < d + 1) && legal_step(g, c, shifted(c, dd)) implies
                                    self.known@[idx(g, #[trigger] shifted(c, dd))] && (!self.closed@[idx(g, shifted(c, dd))]
                                    ==> self.cost@[idx(g, shifted(c, dd))] <= self.cost@[k] + step_cost(dd)) by {
                                    if dd == d {
                                        assert(shifted(c, dd) == q);
                                    }
                                }
                            }
                        }
                    }
                }
            },
        }
    }

    /// After a cheaper way to the open neighbour `q` of the closed cell `p` (direction `d`)
    /// was recorded and pushed on the frontier, the invariant holds with that direction done.
    #[verifier::spinoff_prover]
    proof fn lemma_relaxed(&self, before: Search, g: GridView, s: (int, int), t: (int, int), p: (int, int), d: int, q: (int, int))
        requires
            before.inv_at(g, s, t, idx(g, p), d, -1),
            0 <= d < 8,
            in_bounds(g, p.0, p.1),
            before.closed@[idx(g, p)],
            before.cost@[idx(g, p)] + DIAGONAL_COST <= before.closed_count * DIAGONAL_COST,
            q == shifted(p, d),
            legal_step(g, p, q),
            !before.closed@[idx(g, q)],
            !before.known@[idx(g, q)] || before.cost@[idx(g, p)] + step_cost(d) < before.cost@[idx(g, q)],
            self.known@ == before.known@.update(idx(g, q), true),
            self.cost@ == before.cost@.update(idx(g, q), (before.cost@[idx(g, p)] + step_cost(d)) as u128),
            self.has_parent@ == before.has_parent@.update(idx(g, q), true),
            self.parent_x@ == before.parent_x@.update(idx(g, q), p.0 as usize),
            self.parent_y@ == before.parent_y@.update(idx(g, q), p.1 as usize),
            self.open@ == before.open@.push(((before.cost@[idx(g, p)] + step_cost(d) + octile(q, t)) as u128, q.0 as usize, q.1 as usize)),
            self.closed@ == before.closed@,
            self.closed_count == before.closed_count,
            self.rank == before.rank,
            self.closed_set == before.closed_set,
        ensures
            self.inv_at(g, s, t, idx(g, p), d + 1, -1),
    {
        reveal(Search::cell_ok);
        let n = g.width * g.height;
        let pi = idx(g, p);
        let j = idx(g, q);
        let sid = idx(g, s);
        lemma_cell_index(g, p.0, p.1);
        lemma_cell_index(g, q.0, q.1);
        lemma_cell_index(g, s.0, s.1);
        lemma_cell_index(g, t.0, t.1);
        lemma_step_cost(p, d);
        assert(before.cell_ok(g, s, pi, pi, d, -1));
        assert(before.closed@[sid]);
        assert(j != sid);
        assert(cell_at(g, j) == q);
        let last = self.open.len() - 1;
        assert(self.open@[last].1 == q.0 && self.open@[last].2 == q.1);
        assert(self.parent_of(j) == p);
        assert forall|k: int|
            0 <= k < self.open.len() implies in_bounds(g, #[trigger] self.open@[k].1 as int, self.open@[k].2 as int)
                && self.known@[cell_index(g, self.open@[k].1 as int, self.open@[k].2 as int)]
                && self.open@[k].0 >= self.cost@[cell_index(g, self.open@[k].1 as int, self.open@[k].2 as int)]
                + octile((self.open@[k].1 as int, self.open@[k].2 as int), t) by {
            if k < last {
                assert(self.open@[k] == before.open@[k]);
                lemma_cell_index(g, self.open@[k].1 as int, self.open@[k].2 as int);
            }
        }
        assert forall|k: int| 0 <= k < n implies #[trigger] self.cell_ok(g, s, k, pi, d + 1, -1) by {
            assert(before.cell_ok(g, s, k, pi, d, -1));
            let c = cell_at(g, k);
            if k == j {
                assert(before.cell_ok(g, s, pi, pi, d, -1));
                assert(self.in_open(c));
            } else {
                if self.has_parent@[k] {
                    let r = self.parent_of(k);
                    assert(r == before.parent_of(k));
                    lemma_cell_index(g, r.0, r.1);
                    assert(before.closed@[idx(g, r)]);
                    assert(idx(g, r) != j);
                }
                if self.closed@[k] {
                    assert forall|dd: int|
                        0 <= dd < 8 && (k != pi || dd < d + 1) && legal_step(g, c, shifted(c, dd)) implies
                        self.known@[idx(g, #[trigger] shifted(c, dd))] && (!self.closed@[idx(g, shifted(c, dd))]
                        ==> self.cost@[idx(g, shifted(c, dd))] <= self.cost@[k] + step_cost(dd)) by {
                        let z = shifted(c, dd);
                        lemma_cell_index(g, z.0, z.1);
                        if k == pi && dd == d {
                            assert(z == q);
                        } else {
                            assert(before.known@[idx(g, z)]);
                            if idx(g, z) == j {
                                assert(before.known@[j]);
                            }
                        }
                    }
                }
                if self.known@[k] && !self.closed@[k] {
                    assert(before.in_open(c));
                    let kk = choose|kk: int|
                        0 <= kk < before.open.len() && #[trigger] before.open@[kk].1 == c.0 && before.open@[kk].2 == c.1;
                    assert(self.open@[kk] == before.open@[kk]);
                }
            }
        }
        assert forall|k: int|
            0 <= k < n && self.known@[k] && !self.closed@[k] && k != -1 implies #[trigger] self.has_entry(g, t, k) by {
            if k == j {
                assert(self.open@[last].0 == self.cost@[k] + octile(cell_at(g, k), t));
            } else {
                assert(before.has_entry(g, t, k));
                let c = cell_at(g, k);
                let kk = choose|kk: int|
                    0 <= kk < before.open.len() && #[trigger] before.open@[kk].1 == c.0 && before.open@[kk].2 == c.1
                        && before.open@[kk].0 == before.cost@[k] + octile(c, t);
                assert(self.open@[kk] == before.open@[kk]);
            }
        }
    }
}


/// What one search step did.
enum StepOutcome {
    /// A cell was expanded or a stale frontier entry dropped.
    Continue,
    /// The target came off the frontier.
    Reached,
    /// The frontier ran empty.
    Exhausted,
}

impl Search {
    /// Once every direction of `cur` is done, the full invariant holds again.
    proof fn lemma_expanded(&self, g: GridView, s: (int, int), t: (int, int), cur: int)
        requires
            self.inv_at(g, s, t, cur, 8, -1),
        ensures
            self.inv(g, s, t),
    {
        reveal(Search::cell_ok);
        assert forall|i: int| 0 <= i < g.width * g.height implies #[trigger] self.cell_ok(g, s, i, -1, 0, -1) by {
            assert(self.cell_ok(g, s, i, cur, 8, -1));
        }
    }

    /// Takes the cheapest frontier entry: stops at the target, drops a stale entry of a
    /// closed cell, or closes the cell and tries its 8 moves.
    fn advance(&mut self, grid: &OccupancyGrid, tx: usize, ty: usize, Ghost(s): Ghost<(int, int)>) -> (r: StepOutcome)
        requires
            old(self).inv(grid@, s, (tx as int, ty as int)),
        ensures
            !(r is Reached) ==> final(self).inv(grid@, s, (tx as int, ty as int)),
            r is Continue ==> final(self).measure(grid@) < old(self).measure(grid@),
            r is Reached ==> final(self).known@[idx(grid@, (tx as int, ty as int))] && final(self).inv_at(
                grid@,
                s,
                (tx as int, ty as int),
                -1,
                0,
                idx(grid@, (tx as int, ty as int)),
            ),
            r is Reached ==> forall|q: Seq<(int, int)>| #[trigger] is_route(grid@, q, s, (tx as int, ty as int))
                ==> final(self).cost@[idx(grid@, (tx as int, ty as int))] <= path_cost(q),
            r is Exhausted ==> final(self).open.len() == 0,
    {
        reveal(Search::cell_ok);
        let ghost g = grid@;
        let ghost t = (tx as int, ty as int);
        if self.open.len() == 0 {
            return StepOutcome::Exhausted;
        }
        let ghost before = *self;
        let e = self.pop_entry(Ghost(g), Ghost(s), Ghost(t));
        let (_, x, y) = e;
        let w = grid.width_cells();
        proof {
            lemma_cell_index(g, x as int, y as int);
            assert(y * w <= y * w + x);
        }
        let i = y * w + x;
        proof {
            lemma_cell_index(g, tx as int, ty as int);
            assert(self.cell_ok(g, s, idx(g, t), -1, 0, i as int));
        }
        if x == tx && y == ty {
            return StepOutcome::Reached;
        }
        if self.closed[i] {
            proof {
                assert forall|k: int| 0 <= k < g.width * g.height implies #[trigger] self.cell_ok(g, s, k, -1, 0, -1) by {
                    assert(self.cell_ok(g, s, k, -1, 0, i as int));
                }
            }
            return StepOutcome::Continue;
        }
        proof {
            lemma_cell_index(g, t.0, t.1);
            assert(cell_at(g, i as int) == (x as int, y as int));
            if i == idx(g, t) {
                lemma_cell_index(g, t.0, t.1);
                assert(cell_at(g, idx(g, t)) == t);
            }
        }
        self.close_cell(i, Ghost(g), Ghost(s), Ghost(t));
        let ghost closed_now = *self;
        let mut d: usize = 0;
        while d < 8
            invariant
                g == grid@,
                t == (tx as int, ty as int),
                0 <= d <= 8,
                in_bounds(g, x as int, y as int),
                i == cell_index(g, x as int, y as int),
                self.inv_at(g, s, t, i as int, d as int, -1),
                self.closed@[i as int],
                self.cost@[i as int] + DIAGONAL_COST <= self.closed_count * DIAGONAL_COST,
                self.closed_count == closed_now.closed_count,
                self.open.len() <= closed_now.open.len() + d,
            decreases 8 - d,
        {
            self.relax(grid, x, y, d, tx, ty, Ghost(s));
            d = d + 1;
        }
        proof {
            self.lemma_expanded(g, s, t, i as int);
        }
        StepOutcome::Continue
    }
}


impl Search {
    /// Follows the recorded parents back from the target to the start and returns the
    /// cells from start to target.
    fn trace_back(&self, grid: &OccupancyGrid, sx: usize, sy: usize, tx: usize, ty: usize) -> (route: Vec<(usize, usize)>)
        requires
            self.inv_at(grid@, (sx as int, sy as int), (tx as int, ty as int), -1, 0, idx(grid@, (tx as int, ty as int))),
            self.known@[idx(grid@, (tx as int, ty as int))],
        ensures
            is_route(grid@, cells_of(route@), (sx as int, sy as int), (tx as int, ty as int)),
            path_cost(cells_of(route@)) == self.cost@[idx(grid@, (tx as int, ty as int))],
    {
        reveal(Search::cell_ok);
        let ghost g = grid@;
        let ghost s = (sx as int, sy as int);
        let ghost t = (tx as int, ty as int);
        let ghost tid = idx(g, t);
        let w = grid.width_cells();
        let mut rev: Vec<(usize, usize)> = Vec::new();
        rev.push((tx, ty));
        let mut cx = tx;
        let mut cy = ty;
        proof {
            lemma_cell_index(g, tx as int, ty as int);
            assert(ty * w <= ty * w + tx);
        }
        let mut ci = cy * w + cx;
        proof {
            assert(cells_of(rev@).reverse() =~= seq![t]);
            assert(path_cost(seq![t]) == 0);
        }
        while self.has_parent[ci]
            invariant
                g == grid@,
                w == g.width,
                self.inv_at(g, s, t, -1, 0, tid),
                in_bounds(g, cx as int, cy as int),
                ci == cell_index(g, cx as int, cy as int),
                ci < self.has_parent.len(),
                self.known@[ci as int],
                rev.len() >= 1,
                cells_of(rev@)[0] == t,
                cells_of(rev@)[rev.len() - 1] == (cx as int, cy as int),
                forall|k: int| 0 <= k < rev.len() - 1 ==> legal_step(g, #[trigger] cells_of(rev@)[k + 1], cells_of(rev@)[k]),
                self.cost@[tid] == self.cost@[ci as int] + path_cost(cells_of(rev@).reverse()),
            decreases self.depth(ci as int),
        {
            reveal(Search::cell_ok);
            proof {
                lemma_cell_index(g, cx as int, cy as int);
                assert(self.cell_ok(g, s, ci as int, -1, 0, tid));
            }
            let px = self.parent_x[ci];
            let py = self.parent_y[ci];
            let ghost prev = rev@;
            rev.push((px, py));
            proof {
                let q = (px as int, py as int);
                lemma_cell_index(g, q.0, q.1);
                assert(cell_at(g, ci as int) == (cx as int, cy as int));
                assert(cells_of(rev@) =~= cells_of(prev).push(q));
                assert(self.cell_ok(g, s, idx(g, q), -1, 0, tid));
                assert(py * w <= py * w + px);
                let fwd_old = cells_of(prev).reverse();
                assert(cells_of(rev@).reverse() =~= seq![q] + fwd_old);
                assert(fwd_old[0] == (cx as int, cy as int));
                lemma_path_prepend(q, fwd_old);
            }
            cx = px;
            cy = py;
            ci = cy * w + cx;
        }
        proof {
            lemma_cell_index(g, cx as int, cy as int);
            lemma_cell_index(g, s.0, s.1);
            assert(self.cell_ok(g, s, ci as int, -1, 0, tid));
            assert(ci as int == idx(g, s));
            lemma_cell_at(g, ci as int);
            assert((cx as int, cy as int) == s);
            assert(self.cell_ok(g, s, idx(g, s), -1, 0, tid));
        }
        let mut route: Vec<(usize, usize)> = Vec::new();
        let len = rev.len();
        let mut k: usize = 0;
        while k < len
            invariant
                len == rev.len(),
                len >= 1,
                0 <= k <= len,
                route.len() == k,
                forall|m: int| 0 <= m < k ==> #[trigger] route@[m] == rev@[len - 1 - m],
            decreases len - k,
        {
            route.push(rev[len - 1 - k]);
            k = k + 1;
        }
        proof {
            let fwd = cells_of(route@);
            let back = cells_of(rev@);
            assert forall|m: int| 0 <= m < fwd.len() - 1 implies #[trigger] step_ok(g, fwd, m) by {
                let z = len - 2 - m;
                assert(fwd[m] == back[z + 1]);
                assert(fwd[m + 1] == back[z]);
            }
            assert(fwd[0] == back[len - 1]);
            assert(fwd[fwd.len() - 1] == back[0]);
            assert(fwd =~= back.reverse());
        }
        route
    }
}

impl AStarPlanner {
    /// Plans a route of grid cells from `start` to `goal`.
    ///
    /// Nothing is planned when either cell lies off the grid. When the goal is blocked, the
    /// route goes to the nearest free cell instead (see [`find_nearest_free_cell`]), and
    /// nothing is planned when there is none. When that target is the start cell, the pair
    /// (start, target) is returned. Otherwise an A* search returns a route of legal moves
    /// from the start to the target, or nothing when no such route exists.
    pub fn plan_cells(grid: &OccupancyGrid, start: (usize, usize), goal: (usize, usize)) -> (route: Option<
        Vec<(usize, usize)>,
    >)
        requires
            grid_wf(grid@),
        ensures
            plan_outcome(
                grid@,
                (start.0 as int, start.1 as int),
                (goal.0 as int, goal.1 as int),
                match route {
                    Some(v) => Some(cells_of(v@)),
                    None => None,
                },
            ),
    {
        let ghost g = grid@;
        let w = grid.width_cells();
        let h = grid.height_cells();
        let (sx, sy) = start;
        let (gx, gy) = goal;
        if !(sx < w && sy < h && gx < w && gy < h) {
            return None;
        }
        // If goal is occupied, search outward for closest accessible free cell
        let (tx, ty) = if !grid.is_occupied(gx, gy) {
            (gx, gy)
        } else {
            match find_nearest_free_cell(grid, gx, gy) {
                Some(c) => c,
                None => return None,
            }
        };
        let ghost s = (sx as int, sy as int);
        let ghost t = (tx as int, ty as int);
        assert(planning_target(g, (gx as int, gy as int)) == Some(t));
        if sx == tx && sy == ty {
            let v = vec![(sx, sy), (tx, ty)];
            assert(cells_of(v@) =~= seq![s, t]);
            return Some(v);
        }
        let mut search = Search::start(grid, sx, sy, tx, ty);
        loop
            invariant
                g == grid@,
                s == (sx as int, sy as int),
                t == (tx as int, ty as int),
                start == (sx, sy),
                goal == (gx, gy),
                in_bounds(g, sx as int, sy as int),
                in_bounds(g, gx as int, gy as int),
                planning_target(g, (gx as int, gy as int)) == Some(t),
                s != t,
                search.inv(g, s, t),
            decreases search.measure(g),
        {
            proof {
                search.lemma_count_bound(g, s, t, -1, 0, -1);
            }
            match search.advance(grid, tx, ty, Ghost(s)) {
                StepOutcome::Continue => {
                    proof {
                        search.lemma_count_bound(g, s, t, -1, 0, -1);
                    }
                },
                StepOutcome::Reached => {
                    let route = search.trace_back(grid, sx, sy, tx, ty);
                    assert(reachable(g, s, t)) by {
                        assert(is_route(g, cells_of(route@), s, t));
                    }
                    return Some(route);
                },
                StepOutcome::Exhausted => {
                    proof {
                        search.lemma_exhausted(g, s, t);
                    }
                    return None;
                },
            }
        }
    }
}

} // verus!
