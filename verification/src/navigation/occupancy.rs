//! 2D occupancy grid: the discretized cell matrix used for traversal checks and route planning.
//!
//! Cells are addressed by column `x` (0 ≤ x < width) and row `y` (0 ≤ y < height) and stored
//! row by row. Every cell outside the grid counts as occupied.

use vstd::prelude::*;

verus! {

/// The mathematical content of an [`OccupancyGrid`].
pub struct GridView {
    pub width: nat,
    pub height: nat,
    /// Row-major cell flags: `cells[y * width + x]` is true when (x, y) is blocked.
    pub cells: Seq<bool>,
}

/// Whether (x, y) lies on the grid.
pub open spec fn in_bounds(g: GridView, x: int, y: int) -> bool {
    0 <= x < g.width && 0 <= y < g.height
}

/// The storage index of (x, y).
pub open spec fn cell_index(g: GridView, x: int, y: int) -> int {
    y * g.width + x
}

/// The column and row stored at index `i`.
pub open spec fn cell_at(g: GridView, i: int) -> (int, int) {
    (i % (g.width as int), i / (g.width as int))
}

/// A cell counts as blocked when it is off the grid or marked occupied.
pub open spec fn blocked(g: GridView, x: int, y: int) -> bool {
    !in_bounds(g, x, y) || g.cells[cell_index(g, x, y)]
}

/// A cell is free when it lies on the grid and is not marked occupied.
pub open spec fn free(g: GridView, x: int, y: int) -> bool {
    !blocked(g, x, y)
}

/// The stored flags agree with the dimensions, which are machine sizes.
pub open spec fn grid_wf(g: GridView) -> bool {
    &&& g.cells.len() == g.width * g.height
    &&& g.width <= usize::MAX
    &&& g.height <= usize::MAX
    &&& g.width * g.height <= usize::MAX
}

/// Indices and coordinates of on-grid cells correspond one to one.
pub proof fn lemma_cell_index(g: GridView, x: int, y: int)
    requires
        in_bounds(g, x, y),
    ensures
        0 <= cell_index(g, x, y) < g.width * g.height,
        cell_at(g, cell_index(g, x, y)) == (x, y),
{
    let w = g.width as int;
    let h = g.height as int;
    assert(0 <= y * w + x < w * h) by (nonlinear_arith)
        requires
            0 <= x < w,
            0 <= y < h,
    ;
    vstd::arithmetic::div_mod::lemma_fundamental_div_mod_converse(y * w + x, w, y, x);
}

/// Every storage index belongs to one on-grid cell.
pub proof fn lemma_cell_at(g: GridView, i: int)
    requires
        0 <= i < g.width * g.height,
    ensures
        in_bounds(g, cell_at(g, i).0, cell_at(g, i).1),
        cell_index(g, cell_at(g, i).0, cell_at(g, i).1) == i,
{
    let w = g.width as int;
    let h = g.height as int;
    assert(w > 0) by (nonlinear_arith)
        requires
            0 <= i < w * h,
            h >= 0,
    ;
    vstd::arithmetic::div_mod::lemma_fundamental_div_mod(i, w);
    assert(0 <= i % w < w) by {
        vstd::arithmetic::div_mod::lemma_mod_bound(i, w);
    }
    assert(i / w < h) by (nonlinear_arith)
        requires
            i == w * (i / w) + i % w,
            0 <= i % w,
            i < w * h,
            w > 0,
    ;
    assert(i / w >= 0) by {
        vstd::arithmetic::div_mod::lemma_div_pos_is_pos(i, w);
    }
    assert((i / w) * w + i % w == i) by (nonlinear_arith)
        requires
            i == w * (i / w) + i % w,
    ;
}

/// Discretized 2D grid cell matrix for cost and traversal checks.
#[derive(Debug)]
pub struct OccupancyGrid {
    width_cells: usize,
    height_cells: usize,
    /// Row-major flags where true = occupied/blocked, false = free.
    cells: Vec<bool>,
}

impl View for OccupancyGrid {
    type V = GridView;

    closed spec fn view(&self) -> GridView {
        GridView { width: self.width_cells as nat, height: self.height_cells as nat, cells: self.cells@ }
    }
}

impl OccupancyGrid {
    /// A grid of the given dimensions with every cell free.
    pub fn new(width_cells: usize, height_cells: usize) -> (grid: Self)
        requires
            width_cells * height_cells <= usize::MAX,
        ensures
            grid@.width == width_cells,
            grid@.height == height_cells,
            grid@.cells == Seq::new((width_cells * height_cells) as nat, |i: int| false),
            grid_wf(grid@),
    {
        let total = width_cells * height_cells;
        let cells = vec![false; total];
        let grid = OccupancyGrid { width_cells, height_cells, cells };
        assert(grid@.cells =~= Seq::new((width_cells * height_cells) as nat, |i: int| false));
        grid
    }

    /// The number of columns.
    pub fn width_cells(&self) -> (w: usize)
        ensures
            w == self@.width,
    {
        self.width_cells
    }

    /// The number of rows.
    pub fn height_cells(&self) -> (h: usize)
        ensures
            h == self@.height,
    {
        self.height_cells
    }

    /// Whether (gx, gy) is blocked; cells outside the grid count as blocked.
    pub fn is_occupied(&self, gx: usize, gy: usize) -> (b: bool)
        requires
            grid_wf(self@),
        ensures
            b == blocked(self@, gx as int, gy as int),
    {
        if gx >= self.width_cells || gy >= self.height_cells {
            return true;
        }
        proof {
            lemma_cell_index(self@, gx as int, gy as int);
            assert(gy * self.width_cells + gx < self.cells.len());
            assert(gy * self.width_cells <= gy * self.width_cells + gx);
        }
        self.cells[gy * self.width_cells + gx]
    }

    /// Marks (gx, gy) as occupied or free; cells outside the grid are ignored.
    pub fn set_occupied(&mut self, gx: usize, gy: usize, occupied: bool)
        requires
            grid_wf(old(self)@),
        ensures
            grid_wf(final(self)@),
            final(self)@.width == old(self)@.width,
            final(self)@.height == old(self)@.height,
            final(self)@.cells == (if in_bounds(old(self)@, gx as int, gy as int) {
                old(self)@.cells.update(cell_index(old(self)@, gx as int, gy as int), occupied)
            } else {
                old(self)@.cells
            }),
    {
        if gx < self.width_cells && gy < self.height_cells {
            proof {
                lemma_cell_index(self@, gx as int, gy as int);
                assert(gy * self.width_cells + gx < self.cells.len());
                assert(gy * self.width_cells <= gy * self.width_cells + gx);
            }
            let idx = gy * self.width_cells + gx;
            self.cells.set(idx, occupied);
        }
    }

    /// Marks every cell free, keeping the dimensions.
    pub fn clear(&mut self)
        requires
            grid_wf(old(self)@),
        ensures
            grid_wf(final(self)@),
            final(self)@.width == old(self)@.width,
            final(self)@.height == old(self)@.height,
            final(self)@.cells == Seq::new(old(self)@.cells.len(), |i: int| false),
    {
        let mut i: usize = 0;
        while i < self.cells.len()
            invariant
                0 <= i <= self.cells.len(),
                self.cells.len() == old(self)@.cells.len(),
                self.width_cells == old(self)@.width,
                self.height_cells == old(self)@.height,
                self.cells.len() == self.width_cells * self.height_cells,
                forall|j: int| 0 <= j < i ==> !self.cells@[j],
            decreases self.cells.len() - i,
        {
            self.cells.set(i, false);
            i = i + 1;
        }
        assert(self@.cells =~= Seq::new(old(self)@.cells.len(), |i: int| false));
    }
}

} // verus!
