//! The occupancy grid.
//!
//! A map is a sequence of rows, top row first. A row is a set of sixteen
//! bits: bit `i` of row `j` is set where a wall fills the cell `(i, j)`,
//! which covers the points `[i, i + 1) x [j, j + 1)`. Everything outside the
//! grid is wall, so that the map is closed on all four sides whatever its
//! rows hold.
use crate::fixed::ONE;
use vstd::prelude::*;

verus! {

/// Number of cells in a row.
pub const MAP_WIDTH: i64 = 16;

/// A grid of wall bits.
pub struct GridMap {
    /// The rows, top row first; bit `i` of a row is the cell in column `i`.
    pub rows: Vec<u16>,
}

impl View for GridMap {
    type V = Seq<u16>;

    open spec fn view(&self) -> Seq<u16> {
        self.rows@
    }
}

/// Bit `col` of `line` is set.
pub open spec fn spec_bit(line: u16, col: int) -> bool {
    line & (1u16 << (col as u16)) != 0
}

/// The cell `(col, row)` holds a wall. Cells outside the grid do.
pub open spec fn spec_cell_is_wall(rows: Seq<u16>, col: int, row: int) -> bool {
    ||| row < 0
    ||| row >= rows.len()
    ||| col < 0
    ||| col >= MAP_WIDTH
    ||| spec_bit(rows[row], col)
}

/// The index of the cell that holds the coordinate `v` on either axis.
pub open spec fn spec_cell_of(v: int) -> int {
    v / (ONE as int)
}

/// The point `(x, y)` lies in a wall.
pub open spec fn spec_point_in_wall(rows: Seq<u16>, x: int, y: int) -> bool {
    spec_cell_is_wall(rows, spec_cell_of(x), spec_cell_of(y))
}

/// The rows of the built-in arena.
pub open spec fn spec_arena_rows() -> Seq<u16> {
    seq![
        0b1111111111111111u16,
        0b1000001010000101u16,
        0b1011100000110101u16,
        0b1000111010010001u16,
        0b1010001011110111u16,
        0b1011101001100001u16,
        0b1000100000001101u16,
        0b1111111111111111u16,
    ]
}

impl GridMap {
    /// The built-in arena: sixteen by eight cells, walled all round.
    pub fn arena() -> (m: GridMap)
        ensures
            m@ == spec_arena_rows(),
    {
        let rows: Vec<u16> = vec![
            0b1111111111111111u16,
            0b1000001010000101u16,
            0b1011100000110101u16,
            0b1000111010010001u16,
            0b1010001011110111u16,
            0b1011101001100001u16,
            0b1000100000001101u16,
            0b1111111111111111u16,
        ];
        assert(rows@ =~= spec_arena_rows());
        GridMap { rows }
    }

    /// Tells whether the cell `(col, row)` holds a wall.
    pub fn cell_is_wall(&self, col: i64, row: i64) -> (hit: bool)
        ensures
            hit == spec_cell_is_wall(self@, col as int, row as int),
    {
        if row < 0 || col < 0 || col >= MAP_WIDTH {
            return true;
        }
        if row as u64 >= self.rows.len() as u64 {
            return true;
        }
        let line: u16 = self.rows[row as usize];
        line & (1u16 << (col as u16)) != 0
    }

    /// Tells whether the point `(x, y)` lies in a wall. A point outside the
    /// grid, on any side, does.
    pub fn point_in_wall(&self, x: i64, y: i64) -> (hit: bool)
        ensures
            hit == spec_point_in_wall(self@, x as int, y as int),
            x < 0 || y < 0 || x >= MAP_WIDTH * ONE || y >= self@.len() * ONE ==> hit,
    {
        if x < 0 || y < 0 {
            return true;
        }
        self.cell_is_wall(x / ONE, y / ONE)
    }
}

} // verus!
