//! Projection of cast results onto the screen: per-column wall spans,
//! texture coordinates along the struck face, and the per-frame slice list.

use vstd::prelude::*;

verus! {

use crate::caster::{cast_model, cast_ray, HIT_MAX};
use crate::fixed::{mod_euclid, CELL_MAX, COORD_MAX, FP};
use crate::grid::{Cell, Grid};
use vstd::arithmetic::div_mod::{lemma_div_pos_is_pos, lemma_multiply_divide_lt};
use vstd::arithmetic::mul::{lemma_mul_is_commutative, lemma_mul_strict_inequality};

/// Largest screen dimension (pixels) the projection accepts.
pub const SCREEN_MAX: usize = 131072;

/// Largest projection-plane distance (fixed point) the projection accepts.
pub const PROJ_MAX: i64 = 0x1_0000_0000;

/// One renderable wall slice: a screen column, its vertical span in pixel
/// rows, the texture coordinate along the struck face (fixed point in
/// `[0, FP)`), the struck cell, and the perpendicular distance that also
/// serves as the sprite occlusion reference for this column.
pub struct Slice {
    pub column: usize,
    pub top: usize,
    pub bottom: usize,
    pub tex_u: i64,
    pub impact: Cell,
    pub distance: i64,
}

/// Specification twin of [`Slice`] over unbounded integers.
pub struct SliceModel {
    pub column: int,
    pub top: int,
    pub bottom: int,
    pub tex_u: int,
    pub impact: Cell,
    pub distance: int,
}

/// What one [`Slice`] means mathematically.
pub open spec fn slice_view(s: Slice) -> SliceModel {
    SliceModel {
        column: s.column as int,
        top: s.top as int,
        bottom: s.bottom as int,
        tex_u: s.tex_u as int,
        impact: s.impact,
        distance: s.distance as int,
    }
}

/// Wall height in pixels for a perpendicular distance: inversely
/// proportional to the distance, capped at twice the screen height so a
/// near-zero distance cannot demand an absurd draw.
pub open spec fn wall_height(dist: int, screen_h: int, ppd: int) -> int {
    let h = (screen_h / 2) * ppd / dist;
    if h > 2 * screen_h {
        2 * screen_h
    } else {
        h
    }
}

/// The vertical wall span for one column: centred on the horizon, clamped
/// to the screen, `None` when the distance is not positive (a miss) or the
/// clamped span collapses.
pub open spec fn span_model(dist: int, screen_h: int, ppd: int) -> Option<(int, int)> {
    if dist <= 0 {
        None
    } else {
        let hh = screen_h / 2;
        let h = wall_height(dist, screen_h, ppd);
        let top = if h / 2 <= hh {
            hh - h / 2
        } else {
            0
        };
        let bottom = if hh + h / 2 <= screen_h {
            hh + h / 2
        } else {
            screen_h
        };
        if bottom <= top {
            None
        } else {
            Some((top, bottom))
        }
    }
}

/// Turn one perpendicular distance into a screen-column wall span
/// (top and bottom pixel rows), exactly as [`span_model`] says.
pub fn project_wall_span(distance: i64, screen_h: usize, ppd: i64) -> (r: Option<(usize, usize)>)
    requires
        screen_h <= SCREEN_MAX,
        0 <= ppd <= PROJ_MAX,
    ensures
        r is None <==> span_model(distance as int, screen_h as int, ppd as int) is None,
        (r matches Some(v) ==> span_model(distance as int, screen_h as int, ppd as int) == Some(
            (v.0 as int, v.1 as int),
        )),
{
    if distance <= 0 {
        return None;
    }
    let hh: u64 = (screen_h as u64) / 2;
    proof {
        assert((hh as int) * (ppd as int) < 0x8000_0000_0000_0000) by (nonlinear_arith)
            requires
                0 <= hh as int <= 65536,
                0 <= ppd as int <= PROJ_MAX,
        ;
    }
    let mut h: u64 = hh * (ppd as u64) / (distance as u64);
    if h > 2 * (screen_h as u64) {
        h = 2 * (screen_h as u64);
    }
    let half: u64 = h / 2;
    let top: u64 = if half <= hh {
        hh - half
    } else {
        0
    };
    let bottom: u64 = if hh + half <= (screen_h as u64) {
        hh + half
    } else {
        screen_h as u64
    };
    if bottom <= top {
        None
    } else {
        Some((top as usize, bottom as usize))
    }
}

/// The fractional position of `h` within its cell, as a fixed-point value
/// in `[0, FP)`.
pub open spec fn frac_of(h: int, c: int) -> int {
    (h % c) * FP / c
}

/// Mirror a texture coordinate across the face, keeping `[0, FP)` closed
/// under the flip: `0` stays `0`, anything else becomes `FP - u`.
pub open spec fn mirror_u(u: int) -> int {
    if u == 0 {
        0
    } else {
        FP - u
    }
}

/// Texture coordinate along the struck face: the hit point's fractional
/// cell position measured *along* the face (y for a vertical face, x for a
/// horizontal one), mirrored on faces seen from their far side so textures
/// never appear flipped.
pub open spec fn tex_u_model(
    hx: int,
    hy: int,
    c: int,
    vertical: bool,
    dx: int,
    dy: int,
) -> int {
    let u = if vertical {
        frac_of(hy, c)
    } else {
        frac_of(hx, c)
    };
    if (vertical && dx > 0) || (!vertical && dy < 0) {
        mirror_u(u)
    } else {
        u
    }
}

/// The fractional cell position is always in `[0, FP)`.
proof fn lemma_frac_bounded(h: int, c: int)
    requires
        1 <= c,
    ensures
        0 <= frac_of(h, c) < FP,
{
    let r = h % c;
    vstd::arithmetic::div_mod::lemma_mod_division_less_than_divisor(h, c);
    vstd::arithmetic::mul::lemma_mul_nonnegative(r, FP as int);
    lemma_div_pos_is_pos(r * (FP as int), c);
    lemma_mul_strict_inequality(r, c, FP as int);
    lemma_mul_is_commutative(c, FP as int);
    lemma_multiply_divide_lt(r * (FP as int), c, FP as int);
}

/// Texture coordinates are always in `[0, FP)`, for any hit point —
/// including one exactly on a cell boundary — and either mirroring state.
pub proof fn lemma_tex_u_bounded(hx: int, hy: int, c: int, vertical: bool, dx: int, dy: int)
    requires
        1 <= c,
    ensures
        0 <= tex_u_model(hx, hy, c, vertical, dx, dy) < FP,
{
    lemma_frac_bounded(hy, c);
    lemma_frac_bounded(hx, c);
}

/// Resolve the texture coordinate for a hit point, exactly as
/// [`tex_u_model`] says; the result is always inside `[0, FP)`.
pub fn resolve_tex_u(
    hit_x: i64,
    hit_y: i64,
    cell_fp: i64,
    vertical: bool,
    dir_x: i64,
    dir_y: i64,
) -> (u: i64)
    requires
        1 <= cell_fp <= CELL_MAX,
        -HIT_MAX <= hit_x <= HIT_MAX,
        -HIT_MAX <= hit_y <= HIT_MAX,
    ensures
        u == tex_u_model(
            hit_x as int,
            hit_y as int,
            cell_fp as int,
            vertical,
            dir_x as int,
            dir_y as int,
        ),
        0 <= u < FP,
{
    let local: i64 = if vertical {
        mod_euclid(hit_y, cell_fp)
    } else {
        mod_euclid(hit_x, cell_fp)
    };
    let u0: i64 = (((local as u64) * (FP as u64)) / (cell_fp as u64)) as i64;
    proof {
        if vertical {
            lemma_frac_bounded(hit_y as int, cell_fp as int);
        } else {
            lemma_frac_bounded(hit_x as int, cell_fp as int);
        }
    }
    let flip: bool = if vertical {
        dir_x > 0
    } else {
        dir_y < 0
    };
    if flip {
        if u0 == 0 {
            0
        } else {
            FP - u0
        }
    } else {
        u0
    }
}

/// The slice that one screen column contributes, if any: the cast result
/// fed through the span projection and the texture resolver. A miss, a
/// non-positive distance or a collapsed span contributes nothing.
pub open spec fn column_slice(
    g: Seq<Seq<Cell>>,
    c: int,
    ox: int,
    oy: int,
    dx: int,
    dy: int,
    screen_h: int,
    ppd: int,
    col: int,
) -> Option<SliceModel> {
    let m = cast_model(g, c, ox, oy, dx, dy);
    if !m.hit {
        None
    } else {
        match span_model(m.distance, screen_h, ppd) {
            None => None,
            Some(tb) => Some(
                SliceModel {
                    column: col,
                    top: tb.0,
                    bottom: tb.1,
                    tex_u: tex_u_model(m.hit_x, m.hit_y, c, m.vertical, dx, dy),
                    impact: m.impact,
                    distance: m.distance,
                },
            ),
        }
    }
}

/// The slices of the first `upto` columns, in column order, skipping
/// columns that contribute nothing.
pub open spec fn slices_model(
    g: Seq<Seq<Cell>>,
    c: int,
    ox: int,
    oy: int,
    dirs: Seq<(i64, i64)>,
    screen_h: int,
    ppd: int,
    upto: int,
) -> Seq<SliceModel>
    decreases upto,
{
    if upto <= 0 {
        Seq::empty()
    } else {
        let prev = slices_model(g, c, ox, oy, dirs, screen_h, ppd, upto - 1);
        match column_slice(
            g,
            c,
            ox,
            oy,
            dirs[upto - 1].0 as int,
            dirs[upto - 1].1 as int,
            screen_h,
            ppd,
            upto - 1,
        ) {
            None => prev,
            Some(s) => prev.push(s),
        }
    }
}

/// Build the frame's ordered slice list: one cast per screen column, each
/// fed through the span projection and texture resolver. `dirs[i]` is the
/// ray direction of column `i`; the result is exactly [`slices_model`]
/// over all columns.
#[verifier::loop_isolation(false)]
pub fn build_slices(
    grid: &Grid,
    cell_fp: i64,
    ox: i64,
    oy: i64,
    dirs: &Vec<(i64, i64)>,
    screen_h: usize,
    ppd: i64,
) -> (r: Vec<Slice>)
    requires
        1 <= cell_fp <= CELL_MAX,
        -COORD_MAX <= ox <= COORD_MAX,
        -COORD_MAX <= oy <= COORD_MAX,
        forall|i: int|
            0 <= i < dirs@.len() ==> {
                &&& -FP <= (#[trigger] dirs@[i]).0 <= FP
                &&& -FP <= dirs@[i].1 <= FP
                &&& (dirs@[i].0 != 0 || dirs@[i].1 != 0)
            },
        screen_h <= SCREEN_MAX,
        0 <= ppd <= PROJ_MAX,
    ensures
        r@.map_values(|s: Slice| slice_view(s)) == slices_model(
            grid@,
            cell_fp as int,
            ox as int,
            oy as int,
            dirs@,
            screen_h as int,
            ppd as int,
            dirs@.len() as int,
        ),
{
    let mut slices: Vec<Slice> = Vec::new();
    let mut i: usize = 0;
    proof {
        assert(slices@.map_values(|s: Slice| slice_view(s)) =~= Seq::<SliceModel>::empty());
    }
    while i < dirs.len()
        invariant
            i <= dirs@.len(),
            slices@.map_values(|s: Slice| slice_view(s)) == slices_model(
                grid@,
                cell_fp as int,
                ox as int,
                oy as int,
                dirs@,
                screen_h as int,
                ppd as int,
                i as int,
            ),
        decreases dirs@.len() - i,
    {
        let (dx, dy) = dirs[i];
        let hit = cast_ray(grid, cell_fp, ox, oy, dx, dy);
        if hit.hit {
            match project_wall_span(hit.distance, screen_h, ppd) {
                None => {
                },
                Some((top, bottom)) => {
                    let u = resolve_tex_u(hit.hit_x, hit.hit_y, cell_fp, hit.vertical, dx, dy);
                    let s = Slice {
                        column: i,
                        top,
                        bottom,
                        tex_u: u,
                        impact: hit.impact,
                        distance: hit.distance,
                    };
                    proof {
                        let prev = slices@.map_values(|t: Slice| slice_view(t));
                        assert(slices@.push(s).map_values(|t: Slice| slice_view(t)) =~= prev.push(
                            slice_view(s),
                        ));
                    }
                    slices.push(s);
                },
            }
        }
        i = i + 1;
    }
    slices
}

} // verus!
