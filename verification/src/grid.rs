//! The mathematical model of one generation.
//!
//! A [`Grid`] is a rectangle of cells whose edges wrap around: the row above
//! the first is the last, and likewise for columns. Rows and columns are
//! therefore addressed by arbitrary integers, reduced modulo the dimensions.

use vstd::prelude::*;
use vstd::arithmetic::div_mod::lemma_mod_add_multiples_vanish;
use vstd::arithmetic::div_mod::lemma_fundamental_div_mod_converse;
use vstd::arithmetic::div_mod::lemma_mod_bound;
use vstd::arithmetic::div_mod::lemma_mod_twice;
use vstd::arithmetic::div_mod::lemma_add_mod_noop;
use vstd::arithmetic::div_mod::lemma_small_mod;
use crate::cell::Cell;
use crate::point::Point;

verus! {

/// One generation: the dimensions and the cells in row-major order.
pub ghost struct Grid {
    pub width: nat,
    pub height: nat,
    pub cells: Seq<Cell>,
}

impl Grid {
    /// Both dimensions are positive and there is one cell per position.
    pub open spec fn wf(self) -> bool {
        &&& self.width > 0
        &&& self.height > 0
        &&& self.cells.len() == self.width * self.height
    }

    /// The point lies on the grid.
    pub open spec fn contains(self, point: Point) -> bool {
        point.row < self.height && point.col < self.width
    }

    /// The row on the grid that an arbitrary row number wraps to.
    pub open spec fn wrap_row(self, row: int) -> int {
        row % (self.height as int)
    }

    /// The column on the grid that an arbitrary column number wraps to.
    pub open spec fn wrap_col(self, col: int) -> int {
        col % (self.width as int)
    }

    /// The point on the grid that an arbitrary position wraps to.
    pub open spec fn point(self, row: int, col: int) -> Point {
        Point { row: self.wrap_row(row) as u32, col: self.wrap_col(col) as u32 }
    }

    /// The place in the row-major buffer of the cell at a position.
    pub open spec fn offset(self, row: int, col: int) -> int {
        self.wrap_row(row) * self.width + self.wrap_col(col)
    }

    /// The cell at a position.
    pub open spec fn cell(self, row: int, col: int) -> Cell {
        self.cells[self.offset(row, col)]
    }

    /// `1` if the cell at a position is alive, `0` if it is dead.
    pub open spec fn alive(self, row: int, col: int) -> int {
        self.cell(row, col).spec_value() as int
    }

    /// The eight positions around a position, row by row.
    pub open spec fn neighbors(self, row: int, col: int) -> Seq<Point> {
        seq![
            self.point(row - 1, col - 1),
            self.point(row - 1, col),
            self.point(row - 1, col + 1),
            self.point(row, col - 1),
            self.point(row, col + 1),
            self.point(row + 1, col - 1),
            self.point(row + 1, col),
            self.point(row + 1, col + 1),
        ]
    }

    /// The number of live cells among the eight around a position.
    pub open spec fn live_neighbors(self, row: int, col: int) -> int {
        self.alive(row - 1, col - 1) + self.alive(row - 1, col) + self.alive(row - 1, col + 1)
            + self.alive(row, col - 1) + self.alive(row, col + 1)
            + self.alive(row + 1, col - 1) + self.alive(row + 1, col) + self.alive(row + 1, col + 1)
    }

    /// The number of live cells at the given points, each counted as often as
    /// it occurs.
    pub open spec fn live_among(self, points: Seq<Point>) -> int
        decreases points.len(),
    {
        if points.len() == 0 {
            0
        } else {
            self.live_among(points.drop_last())
                + self.alive(points.last().row as int, points.last().col as int)
        }
    }

    /// The state in the next generation of the cell at a position.
    pub open spec fn next_cell(self, row: int, col: int) -> Cell {
        self.cell(row, col).evolved(self.live_neighbors(row, col))
    }

    /// The next generation: every cell replaced by its next state, all of
    /// them computed from this generation.
    pub open spec fn tick(self) -> Grid {
        Grid {
            width: self.width,
            height: self.height,
            cells: Seq::new(
                self.cells.len(),
                |i: int| self.next_cell(i / (self.width as int), i % (self.width as int)),
            ),
        }
    }

    /// This generation with the cell at a position flipped.
    pub open spec fn toggle(self, row: int, col: int) -> Grid {
        Grid {
            width: self.width,
            height: self.height,
            cells: self.cells.update(self.offset(row, col), self.cell(row, col).toggled()),
        }
    }

    /// The grid of the given dimensions in which every cell is dead.
    pub open spec fn dead(width: nat, height: nat) -> Grid {
        Grid { width, height, cells: Seq::new(width * height, |i: int| Cell::Dead) }
    }

    /// The state of the cell at place `i` of the buffer in the seeded
    /// pattern: alive where `i` is a multiple of two or of seven.
    pub open spec fn seed_cell(i: int) -> Cell {
        if i % 2 == 0 || i % 7 == 0 {
            Cell::Alive
        } else {
            Cell::Dead
        }
    }

    /// The 64 by 64 grid filled with the seeded pattern.
    pub open spec fn seeded() -> Grid {
        Grid { width: 64, height: 64, cells: Seq::new(4096, |i: int| Self::seed_cell(i)) }
    }

    /// A wrapped position lies on the grid, and its place lies in the buffer.
    pub proof fn lemma_offset_bounds(self, row: int, col: int)
        requires
            self.wf(),
        ensures
            0 <= self.wrap_row(row) < self.height,
            0 <= self.wrap_col(col) < self.width,
            0 <= self.offset(row, col) < self.cells.len(),
    {
        lemma_mod_bound(row, self.height as int);
        lemma_mod_bound(col, self.width as int);
        let r = self.wrap_row(row);
        let c = self.wrap_col(col);
        let w = self.width as int;
        let h = self.height as int;
        assert(0 <= r * w + c < w * h) by (nonlinear_arith)
            requires
                0 <= r < h,
                0 <= c < w,
        ;
    }

    /// A position on the grid wraps to itself, and its place in the buffer
    /// is `row * width + col`.
    pub proof fn lemma_offset_on_grid(self, row: int, col: int)
        requires
            self.wf(),
            0 <= row < self.height,
            0 <= col < self.width,
        ensures
            self.wrap_row(row) == row,
            self.wrap_col(col) == col,
            self.offset(row, col) == row * self.width + col,
            0 <= row * self.width + col < self.cells.len(),
    {
        lemma_small_mod(row as nat, self.height);
        lemma_small_mod(col as nat, self.width);
        self.lemma_offset_bounds(row, col);
    }

    /// Place `i` of the buffer holds the cell at row `i / width` and column
    /// `i % width`.
    pub proof fn lemma_offset_of_place(self, i: int)
        requires
            self.wf(),
            0 <= i < self.cells.len(),
        ensures
            0 <= i / (self.width as int) < self.height,
            0 <= i % (self.width as int) < self.width,
            self.offset(i / (self.width as int), i % (self.width as int)) == i,
    {
        let w = self.width as int;
        let h = self.height as int;
        let r = i / w;
        let c = i % w;
        lemma_mod_bound(i, w);
        assert(i == r * w + c && 0 <= r < h) by (nonlinear_arith)
            requires
                0 < w,
                0 <= i < w * h,
                r == i / w,
                c == i % w,
                0 <= c < w,
        ;
        self.lemma_offset_on_grid(r, c);
    }

    /// Wrapping is stable under a shift: moving by `delta` from a position or
    /// from the position it wraps to leads to the same place.
    pub proof fn lemma_wrap_shift(self, row: int, col: int, d_row: int, d_col: int)
        requires
            self.wf(),
        ensures
            self.wrap_row(self.wrap_row(row) + d_row) == self.wrap_row(row + d_row),
            self.wrap_col(self.wrap_col(col) + d_col) == self.wrap_col(col + d_col),
            self.offset(self.wrap_row(row) + d_row, self.wrap_col(col) + d_col)
                == self.offset(row + d_row, col + d_col),
    {
        let w = self.width as int;
        let h = self.height as int;
        lemma_add_mod_noop(row, d_row, h);
        lemma_add_mod_noop(row % h, d_row, h);
        lemma_mod_twice(row, h);
        lemma_add_mod_noop(col, d_col, w);
        lemma_add_mod_noop(col % w, d_col, w);
        lemma_mod_twice(col, w);
    }

    /// A position and the point it wraps to hold the same cell.
    pub proof fn lemma_cell_at_point(self, row: int, col: int)
        requires
            self.wf(),
            self.width <= u32::MAX,
            self.height <= u32::MAX,
        ensures
            self.contains(self.point(row, col)),
            self.point(row, col).row == self.wrap_row(row),
            self.point(row, col).col == self.wrap_col(col),
            self.cell(self.point(row, col).row as int, self.point(row, col).col as int)
                == self.cell(row, col),
    {
        self.lemma_offset_bounds(row, col);
        self.lemma_wrap_shift(row, col, 0, 0);
    }

    /// Counting the live cells at the eight points around a position gives
    /// the number of its live neighbors.
    pub proof fn lemma_live_among_neighbors(self, row: int, col: int)
        requires
            self.wf(),
            self.width <= u32::MAX,
            self.height <= u32::MAX,
        ensures
            self.live_among(self.neighbors(row, col)) == self.live_neighbors(row, col),
            0 <= self.live_neighbors(row, col) <= 8,
    {
        let ns = self.neighbors(row, col);
        self.lemma_cell_at_point(row - 1, col - 1);
        self.lemma_cell_at_point(row - 1, col);
        self.lemma_cell_at_point(row - 1, col + 1);
        self.lemma_cell_at_point(row, col - 1);
        self.lemma_cell_at_point(row, col + 1);
        self.lemma_cell_at_point(row + 1, col - 1);
        self.lemma_cell_at_point(row + 1, col);
        self.lemma_cell_at_point(row + 1, col + 1);
        assert(ns.take(8) == ns);
        assert forall|k: int| 0 < k <= 8 implies #[trigger] self.live_among(ns.take(k))
            == self.live_among(ns.take(k - 1)) + self.alive(
            ns[k - 1].row as int,
            ns[k - 1].col as int,
        ) by {
            assert(ns.take(k).drop_last() == ns.take(k - 1));
        }
    }

    /// Moving up by one row is moving down by `height - 1` rows, and moving
    /// left by one column is moving right by `width - 1` columns.
    pub proof fn lemma_shift_back(self, row: int, col: int)
        requires
            self.wf(),
        ensures
            self.wrap_row(row + self.height - 1) == self.wrap_row(row - 1),
            self.wrap_col(col + self.width - 1) == self.wrap_col(col - 1),
    {
        lemma_mod_add_multiples_vanish(row - 1, self.height as int);
        lemma_mod_add_multiples_vanish(col - 1, self.width as int);
    }

    /// In the next generation the cell at a position is the next state of
    /// the cell that is there now, wherever the position wraps to.
    pub proof fn lemma_tick_cell(self, row: int, col: int)
        requires
            self.wf(),
        ensures
            self.tick().wf(),
            self.tick().cell(row, col) == self.next_cell(row, col),
    {
        let w = self.width as int;
        let r = self.wrap_row(row);
        let c = self.wrap_col(col);
        self.lemma_offset_bounds(row, col);
        lemma_fundamental_div_mod_converse(r * w + c, w, r, c);
        assert(self.tick().cell(row, col) == self.next_cell(r, c));
        self.lemma_wrap_shift(row, col, -1, -1);
        self.lemma_wrap_shift(row, col, -1, 0);
        self.lemma_wrap_shift(row, col, -1, 1);
        self.lemma_wrap_shift(row, col, 0, -1);
        self.lemma_wrap_shift(row, col, 0, 0);
        self.lemma_wrap_shift(row, col, 0, 1);
        self.lemma_wrap_shift(row, col, 1, -1);
        self.lemma_wrap_shift(row, col, 1, 0);
        self.lemma_wrap_shift(row, col, 1, 1);
    }
}

} // verus!
