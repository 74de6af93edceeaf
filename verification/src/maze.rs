//! One-time maze decoding: raw character rows become the cell grid plus
//! entity lists (pills and ghosts), separating static geometry from
//! dynamic entities before the first frame is rendered.

use vstd::prelude::*;

verus! {

use crate::fixed::CELL_MAX;
use crate::grid::{Cell, Grid};

/// Largest maze dimension (rows or columns) the decoder accepts.
pub const DIM_MAX: usize = 0x10_0000;

/// The cell a raw maze character stands for. Entity markers (pills and
/// ghosts) become floor — their entities are extracted separately — and
/// an unknown character is treated as solid.
pub open spec fn tag_of(ch: char) -> Cell {
    if ch == ' ' || ch == '.' || ch == 'r' || ch == 'R' || ch == 'c' || ch == 'C' {
        Cell::Empty
    } else if ch == '+' {
        Cell::WallA
    } else if ch == '-' {
        Cell::WallB
    } else if ch == '|' {
        Cell::WallC
    } else if ch == 'g' {
        Cell::Goal
    } else {
        Cell::WallA
    }
}

/// Whether a character marks a ghost start, and its kind.
pub open spec fn is_ghost_mark(ch: char) -> bool {
    ch == 'r' || ch == 'R' || ch == 'c' || ch == 'C'
}

/// Red ghosts are drawn always; the other kind only when it sees the
/// player.
pub open spec fn is_red_mark(ch: char) -> bool {
    ch == 'r' || ch == 'R'
}

/// A ghost's starting point, extracted from its maze marker.
#[derive(Clone, Copy, PartialEq, Eq, Structural, Debug)]
pub struct GhostStart {
    pub x: i64,
    pub y: i64,
    pub red: bool,
}

/// The world coordinate of the centre of cell index `i`.
pub open spec fn cell_center(i: int, c: int) -> int {
    i * c + c / 2
}

/// Pills found in the first `upto` characters of row `j`, as world points.
pub open spec fn row_pills(row: Seq<char>, c: int, j: int, upto: int) -> Seq<(int, int)>
    decreases upto,
{
    if upto <= 0 {
        Seq::empty()
    } else {
        let prev = row_pills(row, c, j, upto - 1);
        if row[upto - 1] == '.' {
            prev.push((cell_center(upto - 1, c), cell_center(j, c)))
        } else {
            prev
        }
    }
}

/// Pills of the first `upto` rows, row-major.
pub open spec fn maze_pills(rows: Seq<Seq<char>>, c: int, upto: int) -> Seq<(int, int)>
    decreases upto,
{
    if upto <= 0 {
        Seq::empty()
    } else {
        maze_pills(rows, c, upto - 1) + row_pills(
            rows[upto - 1],
            c,
            upto - 1,
            rows[upto - 1].len() as int,
        )
    }
}

/// Ghost starts found in the first `upto` characters of row `j`.
pub open spec fn row_ghosts(row: Seq<char>, c: int, j: int, upto: int) -> Seq<(int, int, bool)>
    decreases upto,
{
    if upto <= 0 {
        Seq::empty()
    } else {
        let prev = row_ghosts(row, c, j, upto - 1);
        if is_ghost_mark(row[upto - 1]) {
            prev.push((cell_center(upto - 1, c), cell_center(j, c), is_red_mark(row[upto - 1])))
        } else {
            prev
        }
    }
}

/// Ghost starts of the first `upto` rows, row-major.
pub open spec fn maze_ghosts(rows: Seq<Seq<char>>, c: int, upto: int) -> Seq<(int, int, bool)>
    decreases upto,
{
    if upto <= 0 {
        Seq::empty()
    } else {
        maze_ghosts(rows, c, upto - 1) + row_ghosts(
            rows[upto - 1],
            c,
            upto - 1,
            rows[upto - 1].len() as int,
        )
    }
}

/// The integer image of an extracted pill list.
pub open spec fn pills_ints(s: Seq<(i64, i64)>) -> Seq<(int, int)> {
    s.map_values(|p: (i64, i64)| (p.0 as int, p.1 as int))
}

/// The integer image of an extracted ghost list.
pub open spec fn ghosts_ints(s: Seq<GhostStart>) -> Seq<(int, int, bool)> {
    s.map_values(|g: GhostStart| (g.x as int, g.y as int, g.red))
}

/// The character rows of a raw maze, as sequences.
pub open spec fn rows_view(rows: Seq<Vec<char>>) -> Seq<Seq<char>> {
    rows.map_values(|row: Vec<char>| row@)
}

/// Decode a raw character maze into the cell grid plus the pill and ghost
/// entity lists: markers are cleared to floor in the grid, and each marker
/// yields one entity at the centre of its cell.
#[verifier::loop_isolation(false)]
pub fn decode_maze(rows: &Vec<Vec<char>>, cell_fp: i64) -> (r: (Grid, Vec<(i64, i64)>, Vec<
    GhostStart,
>))
    requires
        1 <= cell_fp <= CELL_MAX,
        rows@.len() <= DIM_MAX,
        forall|j: int| 0 <= j < rows@.len() ==> (#[trigger] rows@[j])@.len() <= DIM_MAX,
    ensures
        r.0@.len() == rows@.len(),
        forall|j: int|
            0 <= j < rows@.len() ==> #[trigger] r.0@[j] == rows_view(rows@)[j].map_values(
                |ch: char| tag_of(ch),
            ),
        pills_ints(r.1@) == maze_pills(rows_view(rows@), cell_fp as int, rows@.len() as int),
        ghosts_ints(r.2@) == maze_ghosts(rows_view(rows@), cell_fp as int, rows@.len() as int),
{
    let ghost rv: Seq<Seq<char>> = rows_view(rows@);
    let half: i64 = cell_fp / 2;
    let mut cells: Vec<Vec<Cell>> = Vec::new();
    let mut pills: Vec<(i64, i64)> = Vec::new();
    let mut ghosts: Vec<GhostStart> = Vec::new();
    let mut j: usize = 0;
    proof {
        assert(pills_ints(pills@) =~= maze_pills(rv, cell_fp as int, 0));
        assert(ghosts_ints(ghosts@) =~= maze_ghosts(rv, cell_fp as int, 0));
    }
    while j < rows.len()
        invariant
            j <= rows@.len(),
            cells@.len() == j,
            forall|jj: int|
                0 <= jj < j ==> #[trigger] cells@[jj]@ == rv[jj].map_values(|ch: char| tag_of(ch)),
            pills_ints(pills@) == maze_pills(rv, cell_fp as int, j as int),
            ghosts_ints(ghosts@) == maze_ghosts(rv, cell_fp as int, j as int),
        decreases rows@.len() - j,
    {
        let row: &Vec<char> = &rows[j];
        proof {
            assert(0 <= (j as int) * (cell_fp as int) <= 0x10_0000_0000_0000int)
                by (nonlinear_arith)
                requires
                    0 <= j as int <= 0x10_0000,
                    1 <= cell_fp as int <= CELL_MAX,
            ;
        }
        let cy: i64 = (j as i64) * cell_fp + half;
        proof {
            assert(cy as int == cell_center(j as int, cell_fp as int));
        }
        let mut rowcells: Vec<Cell> = Vec::new();
        let mut i: usize = 0;
        while i < row.len()
            invariant
                i <= row@.len(),
                rowcells@.len() == i,
                forall|ii: int|
                    0 <= ii < i ==> #[trigger] rowcells@[ii] == tag_of(rv[j as int][ii]),
                pills_ints(pills@) == maze_pills(rv, cell_fp as int, j as int) + row_pills(
                    rv[j as int],
                    cell_fp as int,
                    j as int,
                    i as int,
                ),
                ghosts_ints(ghosts@) == maze_ghosts(rv, cell_fp as int, j as int) + row_ghosts(
                    rv[j as int],
                    cell_fp as int,
                    j as int,
                    i as int,
                ),
            decreases row@.len() - i,
        {
            let ch: char = row[i];
            let cell: Cell = if ch == ' ' || ch == '.' || ch == 'r' || ch == 'R' || ch == 'c'
                || ch == 'C' {
                Cell::Empty
            } else if ch == '+' {
                Cell::WallA
            } else if ch == '-' {
                Cell::WallB
            } else if ch == '|' {
                Cell::WallC
            } else if ch == 'g' {
                Cell::Goal
            } else {
                Cell::WallA
            };
            proof {
                assert(cell == tag_of(rv[j as int][i as int]));
            }
            rowcells.push(cell);
            proof {
                assert(0 <= (i as int) * (cell_fp as int) <= 0x10_0000_0000_0000int)
                    by (nonlinear_arith)
                    requires
                        0 <= i as int <= 0x10_0000,
                        1 <= cell_fp as int <= CELL_MAX,
                ;
            }
            let cx: i64 = (i as i64) * cell_fp + half;
            proof {
                assert(cx as int == cell_center(i as int, cell_fp as int));
            }
            if ch == '.' {
                proof {
                    assert(pills_ints(pills@.push((cx, cy))) =~= pills_ints(pills@).push(
                        (cx as int, cy as int),
                    ));
                }
                pills.push((cx, cy));
            } else if ch == 'r' || ch == 'R' || ch == 'c' || ch == 'C' {
                let g = GhostStart { x: cx, y: cy, red: ch == 'r' || ch == 'R' };
                proof {
                    assert(ghosts_ints(ghosts@.push(g)) =~= ghosts_ints(ghosts@).push(
                        (cx as int, cy as int, g.red),
                    ));
                }
                ghosts.push(g);
            }
            i = i + 1;
        }
        proof {
            assert(rowcells@ =~= rv[j as int].map_values(|ch: char| tag_of(ch)));
            assert(maze_pills(rv, cell_fp as int, j as int + 1) == maze_pills(
                rv,
                cell_fp as int,
                j as int,
            ) + row_pills(rv[j as int], cell_fp as int, j as int, rv[j as int].len() as int));
            assert(maze_ghosts(rv, cell_fp as int, j as int + 1) == maze_ghosts(
                rv,
                cell_fp as int,
                j as int,
            ) + row_ghosts(rv[j as int], cell_fp as int, j as int, rv[j as int].len() as int));
        }
        cells.push(rowcells);
        j = j + 1;
    }
    (Grid { rows: cells }, pills, ghosts)
}

} // verus!
