//! Laws of the simulation, stated over the model and proved.

use vstd::prelude::*;
use vstd::arithmetic::div_mod::lemma_fundamental_div_mod;
use vstd::arithmetic::div_mod::lemma_fundamental_div_mod_converse;
use vstd::arithmetic::div_mod::lemma_mod_bound;
use vstd::arithmetic::div_mod::lemma_mod_multiples_vanish;
use vstd::arithmetic::div_mod::lemma_mod_self_0;
use crate::cell::Cell;
use crate::grid::Grid;
use crate::point::Point;

verus! {

/// One change to a world: a generation step, or the flip of one cell.
pub ghost enum Step {
    Tick,
    Toggle { row: int, col: int },
}

impl Grid {
    /// The grid after one step.
    pub open spec fn step(self, step: Step) -> Grid {
        match step {
            Step::Tick => self.tick(),
            Step::Toggle { row, col } => self.toggle(row, col),
        }
    }

    /// The grid after a sequence of steps, taken in order.
    pub open spec fn run(self, steps: Seq<Step>) -> Grid
        decreases steps.len(),
    {
        if steps.len() == 0 {
            self
        } else {
            self.run(steps.drop_last()).step(steps.last())
        }
    }

    /// `a` and `b` differ by a multiple of `m`.
    pub open spec fn congruent(a: int, b: int, m: int) -> bool {
        (a - b) % m == 0
    }

    /// `a` is, up to a multiple of `m`, one of `b - 1`, `b` and `b + 1`.
    pub open spec fn adjacent(a: int, b: int, m: int) -> bool {
        Self::congruent(a, b - 1, m) || Self::congruent(a, b, m) || Self::congruent(a, b + 1, m)
    }

    /// The live cells are exactly three in a line with the middle one at
    /// `(row, col)`: one above the other if `upright`, side by side if not.
    pub open spec fn is_blinker(self, row: int, col: int, upright: bool) -> bool {
        forall|r: int, c: int|
            #[trigger] self.cell(r, c) == Cell::Alive <==> if upright {
                Self::congruent(c, col, self.width as int) && Self::adjacent(
                    r,
                    row,
                    self.height as int,
                )
            } else {
                Self::congruent(r, row, self.height as int) && Self::adjacent(
                    c,
                    col,
                    self.width as int,
                )
            }
    }
}

/// The remainder of `x` modulo `m` and the distance `d` add up to `0` or to
/// `m`.
spec fn cancels(x: int, d: int, m: int) -> bool {
    x % m + d == 0 || x % m + d == m
}

/// For a distance `d` of at most two and a modulus of at least four, `x + d`
/// is a multiple of `m` exactly when `x % m + d` is `0` or `m`.
proof fn lemma_multiple_near(x: int, d: int, m: int)
    requires
        m >= 4,
        -2 <= d <= 2,
    ensures
        0 <= x % m < m,
        (x + d) % m == 0 <==> cancels(x, d, m),
{
    lemma_mod_bound(x, m);
    lemma_fundamental_div_mod(x, m);
    let y = x % m + d;
    assert((x + d) % m == y % m) by {
        lemma_mod_multiples_vanish(x / m, y, m);
        assert(m * (x / m) + y == x + d);
    }
    if y < 0 {
        lemma_fundamental_div_mod_converse(y, m, -1, y + m);
    } else if y < m {
        lemma_fundamental_div_mod_converse(y, m, 0, y);
    } else {
        lemma_fundamental_div_mod_converse(y, m, 1, y - m);
    }
}

/// Dimension consistency: a generation step and the flip of a cell keep the
/// dimensions, and the buffer keeps one cell per position.
pub proof fn lemma_dimensions_preserved(grid: Grid, row: int, col: int)
    requires
        grid.wf(),
    ensures
        grid.tick().wf(),
        grid.tick().width == grid.width,
        grid.tick().height == grid.height,
        grid.tick().cells.len() == grid.width * grid.height,
        grid.toggle(row, col).wf(),
        grid.toggle(row, col).width == grid.width,
        grid.toggle(row, col).height == grid.height,
        grid.toggle(row, col).cells.len() == grid.width * grid.height,
{
    grid.lemma_offset_bounds(row, col);
}

/// Dimension consistency over time: whatever steps are taken, in whatever
/// order, the dimensions stay and the buffer holds `width * height` cells.
pub proof fn lemma_run_preserves_dimensions(grid: Grid, steps: Seq<Step>)
    requires
        grid.wf(),
    ensures
        grid.run(steps).wf(),
        grid.run(steps).width == grid.width,
        grid.run(steps).height == grid.height,
        grid.run(steps).cells.len() == grid.width * grid.height,
    decreases steps.len(),
{
    if steps.len() > 0 {
        let before = grid.run(steps.drop_last());
        lemma_run_preserves_dimensions(grid, steps.drop_last());
        match steps.last() {
            Step::Tick => lemma_dimensions_preserved(before, 0, 0),
            Step::Toggle { row, col } => lemma_dimensions_preserved(before, row, col),
        }
    }
}

/// Determinism: two worlds that start from the same generation and take the
/// same steps end in the same generation, cell for cell.
pub proof fn lemma_run_deterministic(a: Grid, b: Grid, steps_a: Seq<Step>, steps_b: Seq<Step>)
    requires
        a.width == b.width,
        a.height == b.height,
        a.cells == b.cells,
        steps_a == steps_b,
    ensures
        a.run(steps_a) == b.run(steps_b),
        a.run(steps_a).cells == b.run(steps_b).cells,
{
}

/// A grid of dead cells is well formed, and the cell at every position of
/// it is dead.
pub proof fn lemma_dead_grid(width: nat, height: nat)
    requires
        width > 0,
        height > 0,
    ensures
        Grid::dead(width, height).wf(),
        forall|row: int, col: int| #[trigger]
            Grid::dead(width, height).cell(row, col) == Cell::Dead,
{
    let grid = Grid::dead(width, height);
    assert forall|row: int, col: int| #[trigger] grid.cell(row, col) == Cell::Dead by {
        grid.lemma_offset_bounds(row, col);
    }
}

/// Toroidal wrap: the cell at `(0, 0)` is a neighbor of the last cell of the
/// first column, of the last cell of the first row and of the cell in the
/// opposite corner. If it is alive, each of them counts it.
pub proof fn lemma_origin_wraps(grid: Grid)
    requires
        grid.wf(),
    ensures
        grid.cell(grid.height as int, 0) == grid.cell(0, 0),
        grid.cell(0, grid.width as int) == grid.cell(0, 0),
        grid.cell(grid.height as int, grid.width as int) == grid.cell(0, 0),
        grid.live_neighbors(grid.height - 1, 0) >= grid.alive(0, 0),
        grid.live_neighbors(0, grid.width - 1) >= grid.alive(0, 0),
        grid.live_neighbors(grid.height - 1, grid.width - 1) >= grid.alive(0, 0),
        grid.cell(0, 0) == Cell::Alive ==> {
            &&& grid.live_neighbors(grid.height - 1, 0) >= 1
            &&& grid.live_neighbors(0, grid.width - 1) >= 1
            &&& grid.live_neighbors(grid.height - 1, grid.width - 1) >= 1
        },
{
    lemma_mod_self_0(grid.height as int);
    lemma_mod_self_0(grid.width as int);
    assert(0int % (grid.height as int) == 0);
    assert(0int % (grid.width as int) == 0);
}

/// Toroidal wrap, in terms of points: on a grid whose dimensions fit the
/// coordinates of a point, `(0, 0)` is among the neighbors of the same three
/// cells.
pub proof fn lemma_origin_among_neighbors(grid: Grid)
    requires
        grid.wf(),
        grid.width <= u32::MAX,
        grid.height <= u32::MAX,
    ensures
        grid.neighbors(grid.height - 1, 0).contains(Point { row: 0, col: 0 }),
        grid.neighbors(0, grid.width - 1).contains(Point { row: 0, col: 0 }),
        grid.neighbors(grid.height - 1, grid.width - 1).contains(Point { row: 0, col: 0 }),
{
    lemma_mod_self_0(grid.height as int);
    lemma_mod_self_0(grid.width as int);
    assert(0int % (grid.height as int) == 0);
    assert(0int % (grid.width as int) == 0);
    let origin = Point { row: 0, col: 0 };
    assert(grid.neighbors(grid.height - 1, 0)[6] == origin);
    assert(grid.neighbors(0, grid.width - 1)[4] == origin);
    assert(grid.neighbors(grid.height - 1, grid.width - 1)[7] == origin);
}

/// Toggle idempotence: flipping a cell changes that cell and no other, and
/// flipping it again restores the generation exactly.
pub proof fn lemma_toggle_twice(grid: Grid, row: int, col: int)
    requires
        grid.wf(),
    ensures
        grid.toggle(row, col).cell(row, col) == grid.cell(row, col).toggled(),
        forall|i: int|
            0 <= i < grid.cells.len() && i != grid.offset(row, col) ==> #[trigger] grid.toggle(
                row,
                col,
            ).cells[i] == grid.cells[i],
        grid.toggle(row, col).toggle(row, col) == grid,
{
    grid.lemma_offset_bounds(row, col);
    let once = grid.toggle(row, col);
    assert(once.offset(row, col) == grid.offset(row, col));
    assert(once.toggle(row, col).cells =~= grid.cells);
}

/// Whether the cell `(d_row, d_col)` away from a position is one of the three
/// live cells of a blinker, told by the distance of the position from the
/// blinker's middle.
proof fn lemma_blinker_cell(
    grid: Grid,
    row: int,
    col: int,
    upright: bool,
    r: int,
    c: int,
    d_row: int,
    d_col: int,
)
    requires
        grid.wf(),
        grid.width >= 4,
        grid.height >= 4,
        grid.is_blinker(row, col, upright),
        -1 <= d_row <= 1,
        -1 <= d_col <= 1,
    ensures
        grid.cell(r + d_row, c + d_col) == Cell::Alive || grid.cell(r + d_row, c + d_col)
            == Cell::Dead,
        grid.cell(r + d_row, c + d_col) == Cell::Alive <==> if upright {
            cancels(c - col, d_col, grid.width as int) && (cancels(
                r - row,
                d_row + 1,
                grid.height as int,
            ) || cancels(r - row, d_row, grid.height as int) || cancels(
                r - row,
                d_row - 1,
                grid.height as int,
            ))
        } else {
            cancels(r - row, d_row, grid.height as int) && (cancels(
                c - col,
                d_col + 1,
                grid.width as int,
            ) || cancels(c - col, d_col, grid.width as int) || cancels(
                c - col,
                d_col - 1,
                grid.width as int,
            ))
        },
{
    let w = grid.width as int;
    let h = grid.height as int;
    lemma_multiple_near(r - row, d_row + 1, h);
    lemma_multiple_near(r - row, d_row, h);
    lemma_multiple_near(r - row, d_row - 1, h);
    lemma_multiple_near(c - col, d_col + 1, w);
    lemma_multiple_near(c - col, d_col, w);
    lemma_multiple_near(c - col, d_col - 1, w);
}

/// A blinker turns: one generation after three live cells in a line, the
/// live cells are the three in the crossing line through the same middle.
pub proof fn lemma_blinker_turns(grid: Grid, row: int, col: int, upright: bool)
    requires
        grid.wf(),
        grid.width >= 4,
        grid.height >= 4,
        grid.is_blinker(row, col, upright),
    ensures
        grid.tick().wf(),
        grid.tick().is_blinker(row, col, !upright),
{
    let w = grid.width as int;
    let h = grid.height as int;
    let next = grid.tick();
    assert forall|r: int, c: int| #[trigger] next.cell(r, c) == Cell::Alive <==> if !upright {
        Grid::congruent(c, col, w) && Grid::adjacent(r, row, h)
    } else {
        Grid::congruent(r, row, h) && Grid::adjacent(c, col, w)
    } by {
        grid.lemma_tick_cell(r, c);
        lemma_blinker_cell(grid, row, col, upright, r, c, -1, -1);
        lemma_blinker_cell(grid, row, col, upright, r, c, -1, 0);
        lemma_blinker_cell(grid, row, col, upright, r, c, -1, 1);
        lemma_blinker_cell(grid, row, col, upright, r, c, 0, -1);
        lemma_blinker_cell(grid, row, col, upright, r, c, 0, 0);
        lemma_blinker_cell(grid, row, col, upright, r, c, 0, 1);
        lemma_blinker_cell(grid, row, col, upright, r, c, 1, -1);
        lemma_blinker_cell(grid, row, col, upright, r, c, 1, 0);
        lemma_blinker_cell(grid, row, col, upright, r, c, 1, 1);
        lemma_multiple_near(r - row, 1, h);
        lemma_multiple_near(r - row, 0, h);
        lemma_multiple_near(r - row, -1, h);
        lemma_multiple_near(c - col, 1, w);
        lemma_multiple_near(c - col, 0, w);
        lemma_multiple_near(c - col, -1, w);
    }
}

/// Blinker stability: on a grid of at least four rows and four columns,
/// three live cells side by side become three live cells one above the other
/// after one generation, and are back as they were after two.
pub proof fn lemma_blinker_period_two(grid: Grid, row: int, col: int)
    requires
        grid.wf(),
        grid.width >= 4,
        grid.height >= 4,
        grid.is_blinker(row, col, false),
    ensures
        grid.tick().is_blinker(row, col, true),
        grid.tick().tick().is_blinker(row, col, false),
        grid.tick().tick() == grid,
{
    lemma_blinker_turns(grid, row, col, false);
    lemma_dimensions_preserved(grid, row, col);
    lemma_blinker_turns(grid.tick(), row, col, true);
    lemma_dimensions_preserved(grid.tick(), row, col);
    let back = grid.tick().tick();
    assert forall|i: int| 0 <= i < grid.cells.len() implies back.cells[i] == grid.cells[i] by {
        grid.lemma_offset_of_place(i);
        back.lemma_offset_of_place(i);
        let r = i / (grid.width as int);
        let c = i % (grid.width as int);
        assert(back.cell(r, c) == Cell::Alive <==> grid.cell(r, c) == Cell::Alive);
    }
    assert(back.cells =~= grid.cells);
}

} // verus!
