//! The maze grid: a rectangle (tolerating ragged rows) of cell tags.
//!
//! The grid is read-only while a frame is rendered; any entity markers are
//! stripped by the maze decoder before the grid reaches the ray caster.

use vstd::prelude::*;

verus! {

/// One grid cell. Everything except `Empty` stops a ray.
#[derive(Clone, Copy, PartialEq, Eq, Structural, Debug)]
pub enum Cell {
    /// Open floor; rays pass through.
    Empty,
    /// First wall variant.
    WallA,
    /// Second wall variant.
    WallB,
    /// Third wall variant.
    WallC,
    /// The goal cell; solid, drawn with its own texture.
    Goal,
}

/// The maze: rows of cells. Rows may have unequal lengths; a column index at
/// or beyond a row's length counts as out of bounds for that row.
pub struct Grid {
    pub rows: Vec<Vec<Cell>>,
}

impl View for Grid {
    type V = Seq<Seq<Cell>>;

    open spec fn view(&self) -> Seq<Seq<Cell>> {
        self.rows@.map_values(|r: Vec<Cell>| r@)
    }
}

/// Whether `(row, col)` addresses a cell, honouring each row's own length.
pub open spec fn cell_in_bounds(g: Seq<Seq<Cell>>, row: int, col: int) -> bool {
    0 <= row < g.len() && 0 <= col < g[row].len()
}

/// Whether the grid is an `nrows` by `ncols` rectangle.
pub open spec fn is_rect(g: Seq<Seq<Cell>>, nrows: int, ncols: int) -> bool {
    g.len() == nrows && forall|r: int| 0 <= r < nrows ==> (#[trigger] g[r]).len() == ncols
}

impl Grid {
    /// Number of rows.
    pub fn height(&self) -> (n: usize)
        ensures
            n == self@.len(),
    {
        self.rows.len()
    }

    /// Length of one row.
    pub fn width_of(&self, row: usize) -> (n: usize)
        requires
            row < self@.len(),
        ensures
            n == self@[row as int].len(),
    {
        self.rows[row].len()
    }

    /// The cell at `(row, col)`, or `None` when the position is out of
    /// bounds (including a column beyond a short ragged row).
    pub fn cell_at(&self, row: i64, col: i64) -> (c: Option<Cell>)
        ensures
            cell_in_bounds(self@, row as int, col as int) ==> c == Some(
                self@[row as int][col as int],
            ),
            !cell_in_bounds(self@, row as int, col as int) ==> c is None,
    {
        if row < 0 || col < 0 {
            return None;
        }
        if (row as u64) >= (self.rows.len() as u64) {
            return None;
        }
        let r: &Vec<Cell> = &self.rows[row as usize];
        if (col as u64) >= (r.len() as u64) {
            return None;
        }
        Some(r[col as usize])
    }
}

} // verus!
