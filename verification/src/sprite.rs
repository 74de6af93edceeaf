//! Billboard sprite projection with per-column occlusion.
//!
//! A world point (a pickup, an actor) is projected into the same
//! screen-column space as the wall slices: its angle relative to the view
//! direction is folded into a half turn, points outside the field of view
//! are culled, and a visible sprite is depth-tested against the wall slice
//! recorded for its column. The comparison uses the *radial* distance to
//! the point — the wall slice distances are perpendicular, the sprite's
//! own size uses the fisheye-corrected perpendicular distance.
//!
//! The caller supplies the relative angle (not yet normalized) and its
//! cosine; both come straight from the surrounding trigonometry and are
//! plain fixed-point values here.

use vstd::prelude::*;

verus! {

use crate::fixed::{
    abs_i, isqrt, lemma_norm_angle_props, lemma_scale_le, lemma_sqrt_floor_bounds, norm_angle,
    normalize_angle, sqrt_floor, ANGLE_MAX, COORD_MAX, FP, PI_FP, TWO_PI_FP,
};
use crate::project::{slice_view, Slice, SliceModel, PROJ_MAX, SCREEN_MAX};

/// Floor for the fisheye-correction factor `|cos rel|`, so the projected
/// size never divides by zero (about one ten-thousandth of a unit).
pub const COS_MIN: i64 = 7;

/// Cap on a sprite's projected height in pixels.
pub const SPRITE_H_MAX: i64 = 0x7fff_ffff;

/// Largest sprite size multiplier accepted: sixteen units.
pub const SIZE_MUL_MAX: i64 = 0x10_0000;

/// Outcome of projecting one world point.
pub enum SpriteView {
    /// Outside the field of view.
    Culled,
    /// Inside the field of view, but a nearer wall covers its column.
    Occluded { column: i64 },
    /// Drawable: screen column, projected height in pixels, radial
    /// distance to the point and fisheye-corrected perpendicular distance.
    Visible { column: i64, height: i64, radial: i64, perp: i64 },
}

/// Specification twin of [`SpriteView`] over unbounded integers.
pub enum SpriteViewModel {
    Culled,
    Occluded { column: int },
    Visible { column: int, height: int, radial: int, perp: int },
}

/// What one [`SpriteView`] means mathematically.
pub open spec fn sprite_result_view(r: SpriteView) -> SpriteViewModel {
    match r {
        SpriteView::Culled => SpriteViewModel::Culled,
        SpriteView::Occluded { column } => SpriteViewModel::Occluded { column: column as int },
        SpriteView::Visible { column, height, radial, perp } => SpriteViewModel::Visible {
            column: column as int,
            height: height as int,
            radial: radial as int,
            perp: perp as int,
        },
    }
}

/// Whether a relative angle falls outside the field of view once folded
/// into a half turn.
pub open spec fn sprite_culled(rel_raw: int, fov: int) -> bool {
    abs_i(norm_angle(rel_raw)) > fov / 2
}

/// Radial distance from the viewer to the point: the floor of the
/// Euclidean length of the offset.
pub open spec fn sprite_radial(dx: int, dy: int) -> int {
    sqrt_floor((dx * dx + dy * dy) as nat) as int
}

/// Fisheye-corrected distance: the radial distance scaled by `|cos rel|`,
/// floored at [`COS_MIN`] so it never collapses to zero.
pub open spec fn sprite_perp(radial: int, cos_rel: int) -> int {
    let cc = if abs_i(cos_rel) < COS_MIN {
        COS_MIN as int
    } else {
        abs_i(cos_rel)
    };
    radial * cc / (FP as int)
}

/// Screen column of a relative angle: linear in the angle across the
/// field of view, like the wall rays themselves. This is the exact floor
/// of the real-valued `(rel + fov/2) / fov * width`, written over a
/// doubled numerator and denominator so that the half field of view
/// loses nothing to rounding: an angle of zero lands on `width / 2`.
pub open spec fn sprite_column(rel: int, fov: int, width: int) -> int {
    (2 * rel + fov) * width / (2 * fov)
}

/// A point dead ahead of the viewer projects to the centre column.
pub proof fn lemma_center_column(fov: int, width: int)
    requires
        1 <= fov,
        0 <= width,
    ensures
        sprite_column(0, fov, width) == width / 2,
{
    vstd::arithmetic::mul::lemma_mul_nonnegative(fov, width);
    vstd::arithmetic::div_mod::lemma_div_denominator(fov * width, fov, 2);
    vstd::arithmetic::div_mod::lemma_div_multiples_vanish(width, fov);
    assert(fov * 2 == 2 * fov) by (nonlinear_arith);
}

/// Projected sprite height in pixels: inverse in the perpendicular
/// distance (floored at one quantum), scaled by the per-class size
/// multiplier, capped at [`SPRITE_H_MAX`].
pub open spec fn sprite_height(half_h: int, ppd: int, perp: int, size_mul: int) -> int {
    let p1 = if perp < 1 {
        1
    } else {
        perp
    };
    let h0 = (half_h * ppd / p1) * size_mul / (FP as int);
    if h0 > SPRITE_H_MAX {
        SPRITE_H_MAX as int
    } else {
        h0
    }
}

/// The first slice recorded for a column, if any.
pub open spec fn find_slice(s: Seq<SliceModel>, col: int) -> Option<SliceModel>
    decreases s.len(),
{
    if s.len() == 0 {
        None
    } else if s[0].column == col {
        Some(s[0])
    } else {
        find_slice(s.drop_first(), col)
    }
}

/// Depth test: the sprite is hidden exactly when its column has a wall
/// slice whose perpendicular distance is smaller than the sprite's
/// *radial* distance.
pub open spec fn sprite_occluded(slices: Seq<SliceModel>, col: int, radial: int) -> bool {
    match find_slice(slices, col) {
        None => false,
        Some(s) => s.distance < radial,
    }
}

/// The full mathematical model of one sprite projection.
pub open spec fn sprite_model(
    wx: int,
    wy: int,
    px: int,
    py: int,
    rel_raw: int,
    cos_rel: int,
    fov: int,
    width: int,
    half_h: int,
    ppd: int,
    size_mul: int,
    slices: Seq<SliceModel>,
) -> SpriteViewModel {
    let rel = norm_angle(rel_raw);
    if abs_i(rel) > fov / 2 {
        SpriteViewModel::Culled
    } else {
        let col = sprite_column(rel, fov, width);
        let radial = sprite_radial(wx - px, wy - py);
        if sprite_occluded(slices, col, radial) {
            SpriteViewModel::Occluded { column: col }
        } else {
            let perp = sprite_perp(radial, cos_rel);
            SpriteViewModel::Visible {
                column: col,
                height: sprite_height(half_h, ppd, perp, size_mul),
                radial,
                perp,
            }
        }
    }
}

/// Project one world point against the frame's wall slices. `rel_raw` is
/// the point's bearing minus the view angle (fixed-point radians, any
/// whole-turn representative) and `cos_rel` its cosine; the result is
/// exactly what [`sprite_model`] says.
#[verifier::loop_isolation(false)]
pub fn project_sprite(
    world_x: i64,
    world_y: i64,
    px: i64,
    py: i64,
    rel_raw: i64,
    cos_rel: i64,
    fov: i64,
    screen_w: usize,
    half_h: usize,
    ppd: i64,
    size_mul: i64,
    slices: &Vec<Slice>,
) -> (r: SpriteView)
    requires
        -COORD_MAX <= world_x <= COORD_MAX,
        -COORD_MAX <= world_y <= COORD_MAX,
        -COORD_MAX <= px <= COORD_MAX,
        -COORD_MAX <= py <= COORD_MAX,
        -ANGLE_MAX <= rel_raw <= ANGLE_MAX,
        -FP <= cos_rel <= FP,
        1 <= fov <= TWO_PI_FP,
        screen_w <= SCREEN_MAX,
        half_h <= SCREEN_MAX,
        0 <= ppd <= PROJ_MAX,
        0 <= size_mul <= SIZE_MUL_MAX,
    ensures
        sprite_result_view(r) == sprite_model(
            world_x as int,
            world_y as int,
            px as int,
            py as int,
            rel_raw as int,
            cos_rel as int,
            fov as int,
            screen_w as int,
            half_h as int,
            ppd as int,
            size_mul as int,
            slices@.map_values(|s: Slice| slice_view(s)),
        ),
{
    let rel: i64 = normalize_angle(rel_raw);
    let rel_abs: i64 = if rel < 0 {
        -rel
    } else {
        rel
    };
    if rel_abs > fov / 2 {
        return SpriteView::Culled;
    }

    let dx: i64 = world_x - px;
    let dy: i64 = world_y - py;
    proof {
        assert(0 <= (dx as int) * (dx as int) <= 0x1000_0000_0000_0000_0000_0000_0000int)
            by (nonlinear_arith)
            requires
                -0x40_0000_0000_0000 <= dx as int <= 0x40_0000_0000_0000,
        ;
        assert(0 <= (dy as int) * (dy as int) <= 0x1000_0000_0000_0000_0000_0000_0000int)
            by (nonlinear_arith)
            requires
                -0x40_0000_0000_0000 <= dy as int <= 0x40_0000_0000_0000,
        ;
    }
    let d2: u128 = ((dx as i128) * (dx as i128) + (dy as i128) * (dy as i128)) as u128;
    let radial_u: u64 = isqrt(d2);
    proof {
        lemma_sqrt_floor_bounds(d2 as nat);
        assert(radial_u as int <= 0x80_0000_0000_0000) by (nonlinear_arith)
            requires
                (radial_u as int) * (radial_u as int) <= d2 as int,
                (d2 as int) <= 0x2000_0000_0000_0000_0000_0000_0000int,
                0 <= radial_u as int,
        ;
    }
    let radial: i64 = radial_u as i64;

    // screen column: linear in the relative angle across the field of view
    proof {
        assert((2 * (rel as int) + fov as int) * (screen_w as int) <= 0x10_0000_0000_0000int)
            by (nonlinear_arith)
            requires
                0 <= 2 * (rel as int) + fov as int <= 823548,
                0 <= screen_w as int <= 131072,
        ;
    }
    let col: i64 = ((2 * rel + fov) * (screen_w as i64)) / (2 * fov);
    proof {
        vstd::arithmetic::mul::lemma_mul_nonnegative(
            2 * (rel as int) + fov as int,
            screen_w as int,
        );
        vstd::arithmetic::div_mod::lemma_div_pos_is_pos(
            (2 * (rel as int) + fov as int) * (screen_w as int),
            2 * (fov as int),
        );
    }

    // depth test against the first slice recorded for this column
    let ghost smodels: Seq<SliceModel> = slices@.map_values(|s: Slice| slice_view(s));
    let mut i: usize = 0;
    let mut occluded: bool = false;
    let mut searching: bool = true;
    proof {
        assert(smodels.skip(0) =~= smodels);
    }
    while searching && i < slices.len()
        invariant
            i <= slices@.len(),
            searching ==> find_slice(smodels, col as int) == find_slice(
                smodels.skip(i as int),
                col as int,
            ),
            !searching ==> (match find_slice(smodels, col as int) {
                None => false,
                Some(s) => occluded == (s.distance < radial as int),
            }),
            searching ==> !occluded,
        decreases slices@.len() - i + (if searching {
            1int
        } else {
            0int
        }),
    {
        let s = &slices[i];
        proof {
            assert(smodels.skip(i as int)[0] == slice_view(slices@[i as int]));
            assert(smodels.skip(i as int).drop_first() =~= smodels.skip(i as int + 1));
        }
        if (s.column as u64) == (col as u64) {
            occluded = s.distance < radial;
            searching = false;
        } else {
            i = i + 1;
        }
    }
    proof {
        if searching {
            assert(smodels.skip(i as int) =~= Seq::<SliceModel>::empty());
        }
    }

    if occluded {
        return SpriteView::Occluded { column: col };
    }

    // fisheye-consistent distance for the sprite's own size
    let cos_abs: i64 = if cos_rel < 0 {
        -cos_rel
    } else {
        cos_rel
    };
    let cc: i64 = if cos_abs < COS_MIN {
        COS_MIN
    } else {
        cos_abs
    };
    proof {
        lemma_scale_le(radial as int, cc as int, FP as int);
    }
    let perp: i64 = (((radial as u128) * (cc as u128)) / (FP as u128)) as i64;
    let p1: i64 = if perp < 1 {
        1
    } else {
        perp
    };

    proof {
        assert((half_h as int) * (ppd as int) <= 0x2_0000_0000_0000) by (nonlinear_arith)
            requires
                0 <= half_h as int <= 131072,
                0 <= ppd as int <= PROJ_MAX,
        ;
        vstd::arithmetic::div_mod::lemma_div_pos_is_pos(
            (half_h as int) * (ppd as int),
            p1 as int,
        );
        vstd::arithmetic::div_mod::lemma_div_nonincreasing(
            (half_h as int) * (ppd as int),
            p1 as int,
        );
        assert(((half_h as int) * (ppd as int) / (p1 as int)) * (size_mul as int)
            <= 0x2_0000_0000_0000_0000_0000int) by (nonlinear_arith)
            requires
                0 <= (half_h as int) * (ppd as int) / (p1 as int) <= 0x2_0000_0000_0000,
                0 <= size_mul as int <= SIZE_MUL_MAX,
        ;
        vstd::arithmetic::div_mod::lemma_div_pos_is_pos(
            ((half_h as int) * (ppd as int) / (p1 as int)) * (size_mul as int),
            FP as int,
        );
    }
    let base: u128 = ((half_h as u128) * (ppd as u128)) / (p1 as u128);
    let h0: u128 = (base * (size_mul as u128)) / (FP as u128);
    let height: i64 = if h0 > (SPRITE_H_MAX as u128) {
        SPRITE_H_MAX
    } else {
        h0 as i64
    };

    SpriteView::Visible { column: col, height, radial, perp }
}

/// A world point directly behind the viewer — its relative angle is a half
/// turn, up to whole turns — is culled for every field of view smaller
/// than a full turn.
pub proof fn lemma_behind_always_culled(rel_raw: int, fov: int)
    requires
        (rel_raw - PI_FP) % (TWO_PI_FP as int) == 0,
        1 <= fov < TWO_PI_FP,
    ensures
        sprite_culled(rel_raw, fov),
{
    lemma_norm_angle_props(rel_raw);
    let r = norm_angle(rel_raw);
    let two_pi = TWO_PI_FP as int;
    vstd::arithmetic::div_mod::lemma_fundamental_div_mod(rel_raw - r, two_pi);
    vstd::arithmetic::div_mod::lemma_fundamental_div_mod(rel_raw - PI_FP, two_pi);
    let qa = (rel_raw - r) / two_pi;
    let qb = (rel_raw - PI_FP) / two_pi;
    let k = PI_FP - r;
    assert(k == two_pi * qa - two_pi * qb);
    assert(k == two_pi * (qa - qb)) by (nonlinear_arith)
        requires
            k == two_pi * qa - two_pi * qb,
            two_pi == TWO_PI_FP as int,
    ;
    assert(0 <= k <= two_pi);
    assert(qa - qb == 0 || qa - qb == 1) by (nonlinear_arith)
        requires
            k == two_pi * (qa - qb),
            0 <= k <= two_pi,
            two_pi == TWO_PI_FP as int,
    ;
    assert(r == PI_FP || r == -PI_FP);
}

} // verus!
