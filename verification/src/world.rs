//! The world: a grid of cells that advances one generation at a time.

use vstd::prelude::*;
use vstd::arithmetic::div_mod::lemma_fundamental_div_mod_converse;
use crate::cell::Cell;
use crate::grid::Grid;
use crate::point::Point;

verus! {

/// Why a world could not be constructed.
#[derive(Clone, Copy, Debug, PartialEq, Eq, Structural)]
pub enum WorldError {
    /// The width or the height is zero.
    ZeroDimension,
    /// The number of cells given is not `width * height`.
    SizeMismatch,
}

/// A toroidal grid of cells together with its current generation.
///
/// The dimensions are fixed at construction and are never zero. The cells are
/// stored row-major, the cell at `(row, col)` at place `row * width + col`,
/// and there are always exactly `width * height` of them.
pub struct World {
    width: u32,
    height: u32,
    cells: Vec<Cell>,
}

impl View for World {
    type V = Grid;

    closed spec fn view(&self) -> Grid {
        Grid { width: self.width as nat, height: self.height as nat, cells: self.cells@ }
    }
}

/// Builds a buffer of `len` dead cells.
fn dead_cells(len: usize) -> (cells: Vec<Cell>)
    ensures
        cells@ == Seq::new(len as nat, |i: int| Cell::Dead),
{
    let mut cells: Vec<Cell> = Vec::with_capacity(len);
    let mut i: usize = 0;
    while i < len
        invariant
            i <= len,
            cells@ == Seq::new(i as nat, |j: int| Cell::Dead),
        decreases len - i,
    {
        cells.push(Cell::Dead);
        i += 1;
    }
    cells
}

impl World {
    #[verifier::type_invariant]
    spec fn inv(self) -> bool {
        &&& self.width > 0
        &&& self.height > 0
        &&& self.cells@.len() == self.width * self.height
        &&& self.width * self.height <= usize::MAX
    }

    /// Creates a world of the given dimensions in which every cell is dead.
    ///
    /// A zero width or height is rejected. The number of cells has to fit in
    /// a `usize`.
    pub fn new(width: u32, height: u32) -> (r: Result<World, WorldError>)
        requires
            width * height <= usize::MAX,
        ensures
            width == 0 || height == 0 <==> r == Err::<World, WorldError>(
                WorldError::ZeroDimension,
            ),
            width > 0 && height > 0 <==> r is Ok,
            r matches Ok(world) ==> world@ == Grid::dead(width as nat, height as nat)
                && world@.wf(),
    {
        if width == 0 || height == 0 {
            return Err(WorldError::ZeroDimension);
        }
        assert(width * height == (width as usize) * (height as usize));
        let len: usize = (width as usize) * (height as usize);
        Ok(World { width, height, cells: dead_cells(len) })
    }

    /// Creates a world of the given dimensions from its cells in row-major
    /// order.
    ///
    /// A zero width or height is rejected, and so is a number of cells other
    /// than `width * height`.
    pub fn from_cells(width: u32, height: u32, cells: Vec<Cell>) -> (r: Result<World, WorldError>)
        ensures
            width == 0 || height == 0 <==> r == Err::<World, WorldError>(
                WorldError::ZeroDimension,
            ),
            width > 0 && height > 0 && cells@.len() != width * height <==> r == Err::<
                World,
                WorldError,
            >(WorldError::SizeMismatch),
            width > 0 && height > 0 && cells@.len() == width * height <==> r is Ok,
            r matches Ok(world) ==> world@ == (Grid {
                width: width as nat,
                height: height as nat,
                cells: cells@,
            }) && world@.wf(),
    {
        if width == 0 || height == 0 {
            return Err(WorldError::ZeroDimension);
        }
        assert(width * height <= u64::MAX) by (nonlinear_arith)
            requires
                width <= u32::MAX,
                height <= u32::MAX,
        ;
        let expected: u64 = (width as u64) * (height as u64);
        if cells.len() as u64 != expected {
            return Err(WorldError::SizeMismatch);
        }
        Ok(World { width, height, cells })
    }

    /// The number of columns.
    pub fn width(&self) -> (width: u32)
        ensures
            width == self@.width,
            width > 0,
    {
        proof {
            use_type_invariant(self);
        }
        self.width
    }

    /// The number of rows.
    pub fn height(&self) -> (height: u32)
        ensures
            height == self@.height,
            height > 0,
    {
        proof {
            use_type_invariant(self);
        }
        self.height
    }

    /// The current generation in row-major order, one cell for each position
    /// of the grid.
    ///
    /// The view is valid until the world is next changed.
    pub fn cells(&self) -> (cells: &[Cell])
        ensures
            cells@ == self@.cells,
            cells@.len() == self@.width * self@.height,
            self@.wf(),
    {
        proof {
            use_type_invariant(self);
        }
        self.cells.as_slice()
    }

    /// The current generation in row-major order; the same view as
    /// [`World::cells`] gives.
    pub fn get_cells(&self) -> (cells: &[Cell])
        ensures
            cells@ == self@.cells,
            cells@.len() == self@.width * self@.height,
            self@.wf(),
    {
        self.cells()
    }

    /// The point on the grid that the position `(row, col)` wraps to.
    pub fn point(&self, row: u32, col: u32) -> (point: Point)
        ensures
            point == self@.point(row as int, col as int),
            point.row == (row as nat) % self@.height,
            point.col == (col as nat) % self@.width,
            self@.contains(point),
    {
        proof {
            use_type_invariant(self);
        }
        Point { row: row % self.height, col: col % self.width }
    }

    /// The place in the buffer of the cell at a point of the grid.
    pub fn index(&self, point: &Point) -> (index: usize)
        requires
            self@.contains(*point),
        ensures
            index == point.row * self@.width + point.col,
            index == self@.offset(point.row as int, point.col as int),
            index < self@.cells.len(),
    {
        proof {
            use_type_invariant(self);
            self@.lemma_offset_on_grid(point.row as int, point.col as int);
        }
        (point.row as usize) * (self.width as usize) + (point.col as usize)
    }

    /// The point reached from a point of the grid by moving down `d_row`
    /// rows and right `d_col` columns, wrapping at the edges.
    fn shifted(&self, point: &Point, d_row: u32, d_col: u32) -> (moved: Point)
        ensures
            moved == self@.point(point.row + d_row, point.col + d_col),
    {
        proof {
            use_type_invariant(self);
        }
        let row: u64 = (point.row as u64 + d_row as u64) % (self.height as u64);
        let col: u64 = (point.col as u64 + d_col as u64) % (self.width as u64);
        Point { row: row as u32, col: col as u32 }
    }

    /// How many neighbors stand before the one at row `i` and column `j` of
    /// the three by three block around a point, whose center is no neighbor.
    spec fn taken(i: int, j: int) -> int {
        if 3 * i + j <= 4 {
            3 * i + j
        } else {
            3 * i + j - 1
        }
    }

    /// The eight points around a point of the grid, row by row, each wrapped
    /// at the edges. The point itself is left out; on a grid with a single
    /// row or column a neighbor may still wrap onto it.
    pub fn neighbors(&self, point: &Point) -> (neighbors: Vec<Point>)
        requires
            self@.contains(*point),
        ensures
            neighbors@ == self@.neighbors(point.row as int, point.col as int),
            forall|k: int| 0 <= k < 8 ==> self@.contains(#[trigger] neighbors@[k]),
    {
        proof {
            use_type_invariant(self);
        }
        let rows: [u32; 3] = [self.height - 1, 0, 1];
        let cols: [u32; 3] = [self.width - 1, 0, 1];
        let ghost expected = self@.neighbors(point.row as int, point.col as int);
        let mut neighbors: Vec<Point> = Vec::with_capacity(8);
        let mut i: usize = 0;
        while i < 3
            invariant
                i <= 3,
                self@.wf(),
                self@.width <= u32::MAX,
                self@.height <= u32::MAX,
                rows@ == seq![(self@.height - 1) as u32, 0u32, 1u32],
                cols@ == seq![(self@.width - 1) as u32, 0u32, 1u32],
                expected == self@.neighbors(point.row as int, point.col as int),
                neighbors@ == expected.take(Self::taken(i as int, 0)),
            decreases 3 - i,
        {
            let mut j: usize = 0;
            while j < 3
                invariant
                    i < 3,
                    j <= 3,
                    self@.wf(),
                    self@.width <= u32::MAX,
                    self@.height <= u32::MAX,
                    rows@ == seq![(self@.height - 1) as u32, 0u32, 1u32],
                    cols@ == seq![(self@.width - 1) as u32, 0u32, 1u32],
                    expected == self@.neighbors(point.row as int, point.col as int),
                    neighbors@ == expected.take(Self::taken(i as int, j as int)),
                decreases 3 - j,
            {
                if i != 1 || j != 1 {
                    let moved = self.shifted(point, rows[i], cols[j]);
                    proof {
                        self@.lemma_shift_back(point.row as int, point.col as int);
                        assert(expected.take(Self::taken(i as int, j as int)).push(moved)
                            == expected.take(Self::taken(i as int, j as int + 1)));
                    }
                    neighbors.push(moved);
                }
                j += 1;
            }
            i += 1;
        }
        proof {
            assert(expected.take(8) == expected);
            assert forall|k: int| 0 <= k < 8 implies self@.contains(#[trigger] neighbors@[k]) by {
                let row = point.row as int;
                let col = point.col as int;
                self@.lemma_cell_at_point(row - 1, col - 1);
                self@.lemma_cell_at_point(row - 1, col);
                self@.lemma_cell_at_point(row - 1, col + 1);
                self@.lemma_cell_at_point(row, col - 1);
                self@.lemma_cell_at_point(row, col + 1);
                self@.lemma_cell_at_point(row + 1, col - 1);
                self@.lemma_cell_at_point(row + 1, col);
                self@.lemma_cell_at_point(row + 1, col + 1);
            }
        }
        neighbors
    }

    /// The number of live cells among the eight around a point of the grid.
    pub fn live_neighbors(&self, point: &Point) -> (count: u8)
        requires
            self@.contains(*point),
        ensures
            count == self@.live_neighbors(point.row as int, point.col as int),
            count <= 8,
    {
        proof {
            use_type_invariant(self);
        }
        let neighbors = self.neighbors(point);
        let mut count: u8 = 0;
        let mut i: usize = 0;
        while i < neighbors.len()
            invariant
                i <= neighbors@.len() == 8,
                forall|k: int| 0 <= k < 8 ==> self@.contains(#[trigger] neighbors@[k]),
                count == self@.live_among(neighbors@.take(i as int)),
                count <= i,
            decreases neighbors@.len() - i,
        {
            let index: usize = self.index(&neighbors[i]);
            proof {
                assert(neighbors@.take(i + 1).drop_last() == neighbors@.take(i as int));
            }
            count += self.cells[index].value();
            i += 1;
        }
        proof {
            assert(neighbors@.take(8) == neighbors@);
            self@.lemma_live_among_neighbors(point.row as int, point.col as int);
        }
        count
    }

    /// The state in the next generation of the cell at a point of the grid:
    /// a live cell with fewer than two or more than three live neighbors
    /// dies, a dead cell with exactly three is born, and every other cell
    /// stays as it is.
    pub fn next_state(&self, point: &Point) -> (next: Cell)
        requires
            self@.contains(*point),
        ensures
            next == self@.next_cell(point.row as int, point.col as int),
    {
        let cell = self.cells[self.index(point)];
        let neighbors: u8 = self.live_neighbors(point);
        match (cell, neighbors) {
            (Cell::Alive, x) if x < 2 => Cell::Dead,
            (Cell::Alive, 2) | (Cell::Alive, 3) => Cell::Alive,
            (Cell::Alive, x) if x > 3 => Cell::Dead,
            (Cell::Dead, 3) => Cell::Alive,
            (other, _) => other,
        }
    }

    /// Advances the world by one generation.
    ///
    /// The next state of every cell is computed from the current generation
    /// alone; only then is the whole buffer replaced.
    pub fn tick(&mut self)
        ensures
            final(self)@ == old(self)@.tick(),
            final(self)@.wf(),
    {
        proof {
            use_type_invariant(&*self);
        }
        let ghost grid = self@;
        let ghost w = self.width as int;
        let ghost h = self.height as int;
        let mut next: Vec<Cell> = Vec::with_capacity(self.cells.len());
        let mut row: u32 = 0;
        while row < self.height
            invariant
                row <= h,
                self@ == grid,
                grid.wf(),
                w == grid.width == self.width,
                h == grid.height == self.height,
                next@.len() == row * w,
                forall|i: int|
                    0 <= i < next@.len() ==> #[trigger] next@[i] == grid.next_cell(i / w, i % w),
            decreases h - row,
        {
            let mut col: u32 = 0;
            while col < self.width
                invariant
                    row < h,
                    col <= w,
                    self@ == grid,
                    grid.wf(),
                    w == grid.width == self.width,
                    h == grid.height == self.height,
                    next@.len() == row * w + col,
                    forall|i: int|
                        0 <= i < next@.len() ==> #[trigger] next@[i] == grid.next_cell(
                            i / w,
                            i % w,
                        ),
                decreases w - col,
            {
                let point = Point { row, col };
                let state = self.next_state(&point);
                proof {
                    lemma_fundamental_div_mod_converse(row * w + col, w, row as int, col as int);
                }
                next.push(state);
                col += 1;
            }
            proof {
                assert(row * w + w == (row + 1) * w) by (nonlinear_arith);
            }
            row += 1;
        }
        proof {
            assert(h * w == w * h) by (nonlinear_arith);
            assert(next@ =~= grid.tick().cells);
        }
        self.cells = next;
    }

    /// Flips the cell at the position `(row, col)`, wrapped at the edges.
    /// No other cell changes.
    pub fn toggle_cell(&mut self, row: u32, col: u32)
        ensures
            final(self)@ == old(self)@.toggle(row as int, col as int),
            final(self)@.wf(),
    {
        proof {
            use_type_invariant(&*self);
        }
        let point = self.point(row, col);
        let index: usize = self.index(&point);
        proof {
            self@.lemma_cell_at_point(row as int, col as int);
        }
        let mut cell = self.cells[index];
        cell.toggle();
        self.cells[index] = cell;
    }

    /// Makes every cell dead.
    pub fn reset(&mut self)
        ensures
            final(self)@ == Grid::dead(old(self)@.width, old(self)@.height),
            final(self)@.wf(),
    {
        proof {
            use_type_invariant(&*self);
        }
        self.cells = dead_cells(self.cells.len());
    }
}

impl Default for World {
    /// The 64 by 64 world filled with the seeded pattern: the cell at place
    /// `i` of the buffer is alive where `i` is a multiple of two or of seven.
    fn default() -> (world: World)
        ensures
            world@ == Grid::seeded(),
            world@.wf(),
    {
        let mut cells: Vec<Cell> = Vec::with_capacity(4096);
        let mut i: usize = 0;
        while i < 4096
            invariant
                i <= 4096,
                cells@ == Seq::new(i as nat, |j: int| Grid::seed_cell(j)),
            decreases 4096 - i,
        {
            let cell = if i % 2 == 0 || i % 7 == 0 {
                Cell::Alive
            } else {
                Cell::Dead
            };
            cells.push(cell);
            i += 1;
        }
        World { width: 64, height: 64, cells }
    }
}

} // verus!
