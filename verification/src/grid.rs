//! The world: a rectangle of cells stored row by row, addressed either by
//! column and row or by a position on the hexagonal lattice.
//!
//! Odd rows are shifted half a cell to the right. Counting columns in half
//! steps gives every cell an integer position whose horizontal coordinate
//! is twice its column, plus one on odd rows.

use vstd::prelude::*;
use crate::cell::{Cell, CellType};

verus! {

/// A position on the hexagonal lattice: `x` counts half columns, `y` rows.
#[derive(Clone, Copy, Debug, PartialEq, Eq, Structural)]
pub struct HexPos {
    pub x: u64,
    pub y: u64,
}

impl HexPos {
    /// Whether the position is the centre of a cell: its half-column count is
    /// odd exactly on odd rows.
    pub open spec fn aligned(self) -> bool {
        self.x % 2 == self.y % 2
    }
}

/// The lattice position of the cell in column `col` of row `row`.
pub open spec fn hex_of(col: int, row: int) -> HexPos {
    HexPos { x: (2 * col + row % 2) as u64, y: row as u64 }
}

/// The mathematical content of a world.
pub struct Grid {
    pub width: u32,
    pub height: u32,
    pub cells: Seq<Cell>,
}

impl Grid {
    /// There is exactly one cell for each column of each row.
    pub open spec fn wf(self) -> bool {
        self.cells.len() == self.width * self.height
    }

    /// The cell in column `col` of row `row`.
    pub open spec fn at(self, col: int, row: int) -> Cell {
        self.cells[row * self.width + col]
    }

    /// Whether the lattice position lies on the grid.
    pub open spec fn contains(self, p: HexPos) -> bool {
        p.x < 2 * self.width && p.y < self.height
    }

    /// Where the cell under a lattice position is stored.
    pub open spec fn index_of(self, p: HexPos) -> int {
        p.y * self.width + p.x / 2
    }

    /// The cell under a lattice position.
    pub open spec fn cell_at(self, p: HexPos) -> Cell {
        self.cells[self.index_of(p)]
    }

    /// The grid with the cell at `index` turned into river. Its altitudes stay.
    pub open spec fn with_river(self, index: int) -> Grid {
        Grid {
            width: self.width,
            height: self.height,
            cells: self.cells.update(
                index,
                Cell {
                    cell_type: CellType::River,
                    altitude: self.cells[index].altitude,
                    relative_altitude: self.cells[index].relative_altitude,
                },
            ),
        }
    }

    /// Whether every cell of this grid that is water is the same in `later`.
    pub open spec fn keeps_water(self, later: Grid) -> bool {
        forall|i: int|
            0 <= i < self.cells.len() && (#[trigger] self.cells[i]).cell_type.is_water()
                ==> later.cells[i] == self.cells[i]
    }

    /// Whether `later` can have come from this grid by carving rivers: same
    /// shape, same altitudes, and every cell either as it was or river.
    pub open spec fn carved_into(self, later: Grid) -> bool {
        &&& later.width == self.width
        &&& later.height == self.height
        &&& later.cells.len() == self.cells.len()
        &&& forall|i: int|
            0 <= i < self.cells.len() ==> {
                &&& (#[trigger] later.cells[i]).altitude == self.cells[i].altitude
                &&& later.cells[i].relative_altitude == self.cells[i].relative_altitude
                &&& (later.cells[i].cell_type == self.cells[i].cell_type
                    || later.cells[i].cell_type == CellType::River)
            }
    }
}

/// Cells of a well-formed grid are stored without gaps or overlap: a column
/// and row on the grid index into the cells.
pub proof fn lemma_index_in_range(width: nat, height: nat, col: int, row: int)
    requires
        0 <= col < width,
        0 <= row < height,
    ensures
        0 <= row * width + col < width * height,
{
    assert(row * width + col < width * height) by (nonlinear_arith)
        requires
            0 <= col < width,
            0 <= row < height,
    ;
    assert(0 <= row * width) by (nonlinear_arith)
        requires
            0 <= row,
            0 <= width,
    ;
}

/// A lattice position on the grid lies over a stored cell.
pub proof fn lemma_position_in_range(g: Grid, p: HexPos)
    requires
        g.contains(p),
    ensures
        0 <= g.index_of(p) < g.width * g.height,
        g.index_of(p) == p.y * g.width + p.x / 2,
        0 <= p.x / 2 < g.width,
{
    lemma_index_in_range(g.width as nat, g.height as nat, (p.x / 2) as int, p.y as int);
}

/// Two cell centres on the grid that lie over the same stored cell are the
/// same position.
pub proof fn lemma_aligned_positions_distinct(g: Grid, p: HexPos, q: HexPos)
    requires
        g.contains(p),
        g.contains(q),
        p.aligned(),
        q.aligned(),
        g.index_of(p) == g.index_of(q),
    ensures
        p == q,
{
    let w = g.width as int;
    let (pc, qc) = ((p.x / 2) as int, (q.x / 2) as int);
    let (py, qy) = (p.y as int, q.y as int);
    assert(py == qy) by (nonlinear_arith)
        requires
            py * w + pc == qy * w + qc,
            0 <= pc < w,
            0 <= qc < w,
            0 <= py,
            0 <= qy,
    ;
}

/// A rectangular world of cells.
pub struct World {
    width: u32,
    height: u32,
    cells: Vec<Cell>,
}

impl View for World {
    type V = Grid;

    closed spec fn view(&self) -> Grid {
        Grid { width: self.width, height: self.height, cells: self.cells@ }
    }
}

impl World {
    /// The world holds one cell for each column of each row.
    pub open spec fn wf(&self) -> bool {
        self@.wf()
    }

    /// A world of the given shape over the given cells, row by row; none if
    /// their number is not `width` times `height`.
    pub fn new(width: u32, height: u32, cells: Vec<Cell>) -> (world: Option<World>)
        ensures
            world.is_some() <==> cells@.len() == width * height,
            world matches Some(w) ==> w.wf() && w@ == (Grid { width, height, cells: cells@ }),
    {
        assert(width * height <= 0xffff_ffff * 0xffff_ffff) by (nonlinear_arith)
            requires
                width <= 0xffff_ffff,
                height <= 0xffff_ffff,
        ;
        let area: u64 = (width as u64) * (height as u64);
        if cells.len() as u64 == area {
            Some(World { width, height, cells })
        } else {
            None
        }
    }

    /// Where the cell in column `col` of row `row` is stored.
    fn offset(&self, col: u64, row: u64) -> (index: usize)
        requires
            self.wf(),
            col < self@.width,
            row < self@.height,
        ensures
            index == row * self@.width + col,
            index < self@.cells.len(),
    {
        let w = self.width as usize;
        let (c, r) = (col as usize, row as usize);
        proof {
            assert(self.cells@.len() == self.cells.len());
            lemma_index_in_range(self@.width as nat, self@.height as nat, col as int, row as int);
            assert(r * w == row * self@.width) by (nonlinear_arith)
                requires
                    r == row,
                    w == self@.width,
            ;
        }
        r * w + c
    }

    /// Number of columns.
    pub fn width(&self) -> (w: u32)
        ensures
            w == self@.width,
    {
        self.width
    }

    /// Number of rows.
    pub fn height(&self) -> (h: u32)
        ensures
            h == self@.height,
    {
        self.height
    }

    /// All cells, row by row.
    pub fn cells(&self) -> (cells: &Vec<Cell>)
        ensures
            cells@ == self@.cells,
    {
        &self.cells
    }

    /// The cell in column `col` of row `row`, if the grid has one there.
    pub fn get(&self, col: u32, row: u32) -> (cell: Option<Cell>)
        requires
            self.wf(),
        ensures
            cell.is_some() <==> col < self@.width && row < self@.height,
            cell matches Some(c) ==> c == self@.at(col as int, row as int),
    {
        if col < self.width && row < self.height {
            Some(self.cell(col, row))
        } else {
            None
        }
    }

    /// The cell in column `col` of row `row`.
    pub fn cell(&self, col: u32, row: u32) -> (cell: Cell)
        requires
            self.wf(),
            col < self@.width,
            row < self@.height,
        ensures
            cell == self@.at(col as int, row as int),
    {
        let index = self.offset(col as u64, row as u64);
        self.cells[index]
    }

    /// The lattice position of the cell in column `col` of row `row`.
    pub fn position(&self, col: u32, row: u32) -> (p: HexPos)
        ensures
            p == hex_of(col as int, row as int),
            p.aligned(),
            col < self@.width && row < self@.height ==> self@.contains(p),
            self@.index_of(p) == row * self@.width + col,
    {
        HexPos { x: 2 * (col as u64) + (row as u64) % 2, y: row as u64 }
    }

    /// Whether the lattice position lies on the grid.
    pub fn holds(&self, p: HexPos) -> (b: bool)
        ensures
            b == self@.contains(p),
    {
        p.x < 2 * (self.width as u64) && p.y < self.height as u64
    }

    /// The cell under a lattice position on the grid.
    pub fn cell_at(&self, p: HexPos) -> (cell: Cell)
        requires
            self.wf(),
            self@.contains(p),
        ensures
            cell == self@.cell_at(p),
    {
        let index = self.offset(p.x / 2, p.y);
        self.cells[index]
    }

    /// Turns the cell under a lattice position into river. Nothing else
    /// changes, and the cell keeps both of its altitudes.
    pub fn mark_river(&mut self, p: HexPos)
        requires
            old(self).wf(),
            old(self)@.contains(p),
        ensures
            final(self).wf(),
            final(self)@ == old(self)@.with_river(old(self)@.index_of(p)),
    {
        let index = self.offset(p.x / 2, p.y);
        let cell = self.cells[index];
        self.cells.set(
            index,
            Cell {
                cell_type: CellType::River,
                altitude: cell.altitude,
                relative_altitude: cell.relative_altitude,
            },
        );
    }
}

} // verus!
