//! The player pose and the pure parts of per-frame movement: turning,
//! walking along a direction, standing-room checks, and pickup collection
//! by distance.

use vstd::prelude::*;

verus! {

use crate::fixed::{
    abs_i, div_floor, mul_div_floor, norm_angle, normalize_angle, CELL_MAX, COORD_MAX, FP, PI_FP,
    TWO_PI_FP,
};
use crate::grid::{cell_in_bounds, Cell, Grid};

/// Largest movement step (fixed point) accepted per frame.
pub const MOVE_MAX: i64 = 0x1_0000_0000;

/// The player pose: world position, heading angle and field of view, all
/// fixed point. The heading is kept folded in `[-PI_FP, PI_FP]`.
pub struct Player {
    pub x: i64,
    pub y: i64,
    pub a: i64,
    pub fov: i64,
}

/// The heading after one frame of turning: left and right rotation keys
/// add and subtract one rotation step, then the angle is folded back into
/// a half turn.
pub open spec fn turned_angle(a: int, left: bool, right: bool, rot_step: int) -> int {
    let turn = (if left {
        rot_step
    } else {
        0
    }) - (if right {
        rot_step
    } else {
        0
    });
    norm_angle(a + turn)
}

/// Apply one frame of turning to a heading, exactly as [`turned_angle`].
pub fn turn_player(a: i64, left: bool, right: bool, rot_step: i64) -> (r: i64)
    requires
        -PI_FP <= a <= PI_FP,
        0 <= rot_step <= TWO_PI_FP,
    ensures
        r == turned_angle(a as int, left, right, rot_step as int),
        -PI_FP <= r <= PI_FP,
{
    let turn: i64 = (if left {
        rot_step
    } else {
        0
    }) - (if right {
        rot_step
    } else {
        0
    });
    normalize_angle(a + turn)
}

/// The position after one frame of walking: forward and backward keys
/// each contribute one step along the heading direction (they cancel when
/// both are held), scaled componentwise by the fixed-point direction.
pub open spec fn walked_pos(
    x: int,
    y: int,
    dir_x: int,
    dir_y: int,
    move_step: int,
    forward: bool,
    backward: bool,
) -> (int, int) {
    let sign = (if forward {
        1int
    } else {
        0int
    }) - (if backward {
        1int
    } else {
        0int
    });
    (x + sign * (move_step * dir_x / (FP as int)), y + sign * (move_step * dir_y / (FP as int)))
}

/// Walk the player one frame along `(dir_x, dir_y)` (the cosine and sine
/// of the heading, fixed point), exactly as [`walked_pos`].
pub fn advance_player(
    x: i64,
    y: i64,
    dir_x: i64,
    dir_y: i64,
    move_step: i64,
    forward: bool,
    backward: bool,
) -> (r: (i64, i64))
    requires
        -COORD_MAX < x < COORD_MAX,
        -COORD_MAX < y < COORD_MAX,
        -FP <= dir_x <= FP,
        -FP <= dir_y <= FP,
        0 <= move_step <= MOVE_MAX,
    ensures
        (r.0 as int, r.1 as int) == walked_pos(
            x as int,
            y as int,
            dir_x as int,
            dir_y as int,
            move_step as int,
            forward,
            backward,
        ),
        -2 * COORD_MAX <= r.0 <= 2 * COORD_MAX,
        -2 * COORD_MAX <= r.1 <= 2 * COORD_MAX,
{
    let off_x: i64 = mul_div_floor(move_step, dir_x, FP);
    let off_y: i64 = mul_div_floor(move_step, dir_y, FP);
    if forward == backward {
        proof {
            assert(0 * (move_step as int * dir_x as int / (FP as int)) == 0)
                by (nonlinear_arith);
            assert(0 * (move_step as int * dir_y as int / (FP as int)) == 0)
                by (nonlinear_arith);
        }
        (x, y)
    } else if forward {
        proof {
            assert(1 * (move_step as int * dir_x as int / (FP as int)) == move_step as int
                * dir_x as int / (FP as int)) by (nonlinear_arith);
            assert(1 * (move_step as int * dir_y as int / (FP as int)) == move_step as int
                * dir_y as int / (FP as int)) by (nonlinear_arith);
        }
        (x + off_x, y + off_y)
    } else {
        proof {
            assert((-1) * (move_step as int * dir_x as int / (FP as int)) == -(move_step as int
                * dir_x as int / (FP as int))) by (nonlinear_arith);
            assert((-1) * (move_step as int * dir_y as int / (FP as int)) == -(move_step as int
                * dir_y as int / (FP as int))) by (nonlinear_arith);
        }
        (x - off_x, y - off_y)
    }
}

/// Whether a point stands in an in-bounds empty cell. Negative coordinates
/// count as blocked.
pub open spec fn standable(g: Seq<Seq<Cell>>, c: int, x: int, y: int) -> bool {
    0 <= x && 0 <= y && cell_in_bounds(g, y / c, x / c) && g[y / c][x / c] == Cell::Empty
}

/// Whether `(x, y)` lies in an in-bounds empty cell, exactly as
/// [`standable`]; used to keep actors out of walls.
pub fn can_stand(grid: &Grid, cell_fp: i64, x: i64, y: i64) -> (b: bool)
    requires
        1 <= cell_fp <= CELL_MAX,
        -0x7fff_ffff_ffff_ffff <= x,
        -0x7fff_ffff_ffff_ffff <= y,
    ensures
        b == standable(grid@, cell_fp as int, x as int, y as int),
{
    if x < 0 || y < 0 {
        return false;
    }
    let cx: i64 = div_floor(x, cell_fp);
    let cy: i64 = div_floor(y, cell_fp);
    match grid.cell_at(cy, cx) {
        None => false,
        Some(cell) => cell == Cell::Empty,
    }
}

/// Whether two points lie within `radius` of each other (squared
/// comparison: exact, no rounding).
pub fn within_radius(ax: i64, ay: i64, bx: i64, by: i64, radius: i64) -> (b: bool)
    requires
        -COORD_MAX <= ax <= COORD_MAX,
        -COORD_MAX <= ay <= COORD_MAX,
        -COORD_MAX <= bx <= COORD_MAX,
        -COORD_MAX <= by <= COORD_MAX,
        0 <= radius <= COORD_MAX,
    ensures
        b == ((ax - bx) * (ax - bx) + (ay - by) * (ay - by) <= radius * radius),
{
    let dx: i64 = ax - bx;
    let dy: i64 = ay - by;
    proof {
        assert(0 <= (dx as int) * (dx as int) <= 0x1000_0000_0000_0000_0000_0000_0000int)
            by (nonlinear_arith)
            requires
                -0x40_0000_0000_0000 <= dx as int <= 0x40_0000_0000_0000,
        ;
        assert(0 <= (dy as int) * (dy as int) <= 0x1000_0000_0000_0000_0000_0000_0000int)
            by (nonlinear_arith)
            requires
                -0x40_0000_0000_0000 <= dy as int <= 0x40_0000_0000_0000,
        ;
        assert(0 <= (radius as int) * (radius as int) <= 0x1000_0000_0000_0000_0000_0000_0000int)
            by (nonlinear_arith)
            requires
                0 <= radius as int <= 0x40_0000_0000_0000,
        ;
    }
    let d2: i128 = (dx as i128) * (dx as i128) + (dy as i128) * (dy as i128);
    let r2: i128 = (radius as i128) * (radius as i128);
    d2 <= r2
}

/// Whether a pill at `p` is close enough to the player to be collected.
pub open spec fn pill_picked(p: (i64, i64), px: int, py: int, radius: int) -> bool {
    (p.0 - px) * (p.0 - px) + (p.1 - py) * (p.1 - py) <= radius * radius
}

/// The pills that survive one collection pass over the first `upto`
/// entries, keeping their order.
pub open spec fn kept_pills(pills: Seq<(i64, i64)>, px: int, py: int, radius: int, upto: int) -> Seq<
    (i64, i64),
>
    decreases upto,
{
    if upto <= 0 {
        Seq::empty()
    } else {
        let prev = kept_pills(pills, px, py, radius, upto - 1);
        if pill_picked(pills[upto - 1], px, py, radius) {
            prev
        } else {
            prev.push(pills[upto - 1])
        }
    }
}

/// One collection pass: remove every pill within `radius` of the player,
/// keeping the rest in order, and report how many were collected.
#[verifier::loop_isolation(false)]
pub fn collect_pills(pills: &Vec<(i64, i64)>, px: i64, py: i64, radius: i64) -> (r: (
    Vec<(i64, i64)>,
    usize,
))
    requires
        forall|i: int|
            0 <= i < pills@.len() ==> {
                &&& -COORD_MAX <= (#[trigger] pills@[i]).0 <= COORD_MAX
                &&& -COORD_MAX <= pills@[i].1 <= COORD_MAX
            },
        -COORD_MAX <= px <= COORD_MAX,
        -COORD_MAX <= py <= COORD_MAX,
        0 <= radius <= COORD_MAX,
    ensures
        r.0@ == kept_pills(pills@, px as int, py as int, radius as int, pills@.len() as int),
        r.1 == pills@.len() - r.0@.len(),
{
    let mut kept: Vec<(i64, i64)> = Vec::new();
    let mut collected: usize = 0;
    let mut i: usize = 0;
    proof {
        assert(kept@ =~= kept_pills(pills@, px as int, py as int, radius as int, 0));
    }
    while i < pills.len()
        invariant
            i <= pills@.len(),
            kept@ == kept_pills(pills@, px as int, py as int, radius as int, i as int),
            collected == i - kept@.len(),
        decreases pills@.len() - i,
    {
        let p = pills[i];
        if within_radius(p.0, p.1, px, py, radius) {
            collected = collected + 1;
        } else {
            kept.push(p);
        }
        i = i + 1;
    }
    (kept, collected)
}

} // verus!
