//! Line-of-sight sampling between two world points.
//!
//! The segment between the two points is sampled roughly every fifth of a
//! cell; sight is clear exactly when every sample lands in an in-bounds
//! empty cell. Out-of-bounds samples (including negative coordinates and
//! columns beyond a ragged row) count as blocked.

use vstd::prelude::*;

verus! {

use crate::fixed::{div_floor, isqrt, mul_div_floor, sqrt_floor, CELL_MAX, COORD_MAX};
use crate::grid::{cell_in_bounds, Cell, Grid};

/// Number of samples taken along a segment of length `dist`: one per fifth
/// of a cell, rounded up.
pub open spec fn los_steps(dist: int, c: int) -> int {
    (5 * dist + c - 1) / c
}

/// Whether sample `i` of `steps` along the segment from `(fx, fy)` to
/// `(tx, ty)` lands in an in-bounds empty cell.
pub open spec fn sample_clear(
    g: Seq<Seq<Cell>>,
    c: int,
    fx: int,
    fy: int,
    tx: int,
    ty: int,
    steps: int,
    i: int,
) -> bool {
    let x = fx + ((tx - fx) * i) / steps;
    let y = fy + ((ty - fy) * i) / steps;
    cell_in_bounds(g, y / c, x / c) && g[y / c][x / c] == Cell::Empty
}

/// Sight is clear when the two points coincide, or when every sample along
/// the segment lands in an in-bounds empty cell.
pub open spec fn sight_clear(
    g: Seq<Seq<Cell>>,
    c: int,
    fx: int,
    fy: int,
    tx: int,
    ty: int,
) -> bool {
    let dx = tx - fx;
    let dy = ty - fy;
    if dx == 0 && dy == 0 {
        true
    } else {
        let dist = sqrt_floor((dx * dx + dy * dy) as nat) as int;
        let steps = los_steps(dist, c);
        forall|i: int| 1 <= i <= steps ==> sample_clear(g, c, fx, fy, tx, ty, steps, i)
    }
}

/// Whether the straight segment between two points crosses only empty
/// cells, by sampling about every fifth of a cell. Exactly
/// [`sight_clear`].
#[verifier::loop_isolation(false)]
pub fn has_line_of_sight(grid: &Grid, cell_fp: i64, fx: i64, fy: i64, tx: i64, ty: i64) -> (b:
    bool)
    requires
        1 <= cell_fp <= CELL_MAX,
        -COORD_MAX <= fx <= COORD_MAX,
        -COORD_MAX <= fy <= COORD_MAX,
        -COORD_MAX <= tx <= COORD_MAX,
        -COORD_MAX <= ty <= COORD_MAX,
    ensures
        b == sight_clear(grid@, cell_fp as int, fx as int, fy as int, tx as int, ty as int),
{
    let dx: i64 = tx - fx;
    let dy: i64 = ty - fy;
    if dx == 0 && dy == 0 {
        return true;
    }
    proof {
        assert(0 <= (dx as int) * (dx as int) <= 0x1000_0000_0000_0000_0000_0000_0000int)
            by (nonlinear_arith)
            requires
                -0x40_0000_0000_0000 <= dx as int <= 0x40_0000_0000_0000,
        ;
        assert(0 <= (dy as int) * (dy as int) <= 0x1000_0000_0000_0000_0000_0000_0000int)
            by (nonlinear_arith)
            requires
                -0x40_0000_0000_0000 <= dy as int <= 0x40_0000_0000_0000,
        ;
    }
    let d2: u128 = ((dx as i128) * (dx as i128) + (dy as i128) * (dy as i128)) as u128;
    let dist: u64 = isqrt(d2);
    proof {
        crate::fixed::lemma_sqrt_floor_bounds(d2 as nat);
        assert(dist as int <= 0x80_0000_0000_0000) by (nonlinear_arith)
            requires
                (dist as int) * (dist as int) <= d2 as int,
                (d2 as int) <= 0x2000_0000_0000_0000_0000_0000_0000int,
                0 <= dist as int,
        ;
    }
    let steps: u64 = (5 * dist + (cell_fp as u64) - 1) / (cell_fp as u64);
    proof {
        assert(d2 as int == (tx as int - fx as int) * (tx as int - fx as int) + (ty as int
            - fy as int) * (ty as int - fy as int));
        assert(d2 as nat == ((tx as int - fx as int) * (tx as int - fx as int) + (ty as int
            - fy as int) * (ty as int - fy as int)) as nat);
        assert(dist as int == sqrt_floor(d2 as nat) as int);
        assert(steps as int == los_steps(dist as int, cell_fp as int));
        assert(1 <= d2 as int) by (nonlinear_arith)
            requires
                d2 as int == (dx as int) * (dx as int) + (dy as int) * (dy as int),
                dx != 0 || dy != 0,
        ;
        assert(1 <= dist as int) by (nonlinear_arith)
            requires
                0 <= dist as int,
                1 <= d2 as int,
                (d2 as int) < (dist as int + 1) * (dist as int + 1),
        ;
        vstd::arithmetic::div_mod::lemma_div_is_ordered(
            cell_fp as int,
            5 * (dist as int) + cell_fp as int - 1,
            cell_fp as int,
        );
        vstd::arithmetic::div_mod::lemma_div_by_self(cell_fp as int);
        assert(1 <= steps);
    }

    let mut i: u64 = 1;
    while i <= steps
        invariant
            1 <= i,
            i <= steps + 1,
            forall|j: int|
                1 <= j < i ==> sample_clear(
                    grid@,
                    cell_fp as int,
                    fx as int,
                    fy as int,
                    tx as int,
                    ty as int,
                    steps as int,
                    j,
                ),
        decreases steps + 1 - i,
    {
        let ox: i64 = mul_div_floor(dx, i as i64, steps as i64);
        let oy: i64 = mul_div_floor(dy, i as i64, steps as i64);
        let x: i64 = fx + ox;
        let y: i64 = fy + oy;
        let cx: i64 = div_floor(x, cell_fp);
        let cy: i64 = div_floor(y, cell_fp);
        let clear: bool = match grid.cell_at(cy, cx) {
            None => false,
            Some(cell) => cell == Cell::Empty,
        };
        if !clear {
            proof {
                assert(!sample_clear(
                    grid@,
                    cell_fp as int,
                    fx as int,
                    fy as int,
                    tx as int,
                    ty as int,
                    steps as int,
                    i as int,
                ));
                assert(!sight_clear(
                    grid@,
                    cell_fp as int,
                    fx as int,
                    fy as int,
                    tx as int,
                    ty as int,
                ));
            }
            return false;
        }
        i = i + 1;
    }
    true
}

} // verus!
