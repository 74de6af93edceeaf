//! The ray intersection engine: a DDA grid traversal.
//!
//! A ray starts at a continuous fixed-point position and advances cell by
//! cell, always crossing whichever grid line comes next along the ray. The
//! first non-empty cell entered is the hit; leaving the grid, or exhausting
//! the safety step cap, is a miss. The returned distance is the
//! *perpendicular* distance, computed from the exact coordinate of the
//! struck grid line divided by the matching direction component, which is
//! what removes fisheye distortion from the projected image.
//!
//! The executable [`cast_ray`] is proved equal, field for field, to the
//! mathematical model [`cast_model`].

use vstd::prelude::*;

verus! {

use crate::fixed::{abs_i, div_floor, mod_euclid, COORD_MAX, CELL_MAX, FP};
use crate::grid::{Cell, Grid, cell_in_bounds, is_rect};
use vstd::arithmetic::div_mod::{lemma_fundamental_div_mod, lemma_div_nonincreasing,
    lemma_div_pos_is_pos, lemma_div_is_ordered, lemma_div_multiples_vanish};
use vstd::arithmetic::mul::{lemma_mul_inequality, lemma_mul_is_commutative};

/// Safety cap on traversal steps: a ray that crosses this many cells
/// without striking anything counts as a miss.
pub const MAX_STEPS: u64 = 10000;

/// Every coordinate of a returned hit point fits well inside `i64`: origin
/// magnitude plus the largest representable traversal offset.
pub const HIT_MAX: i64 = 0x2900_0000_0000_0000;

/// Result of casting one ray. When `hit` is false the ray left the grid (or
/// ran out of steps): the distance is conceptually infinite, `distance` is 0,
/// the hit point is the origin and `impact` is `Empty`.
pub struct Intersect {
    pub hit: bool,
    pub distance: i64,
    pub hit_x: i64,
    pub hit_y: i64,
    pub impact: Cell,
    pub vertical: bool,
}

/// Specification twin of [`Intersect`] over unbounded integers.
pub struct IntersectModel {
    pub hit: bool,
    pub distance: int,
    pub hit_x: int,
    pub hit_y: int,
    pub impact: Cell,
    pub vertical: bool,
}

/// Where a traversal stopped: outside the grid (or out of steps), or in a
/// solid cell, entered through a vertical face (an x-advance) or a
/// horizontal one (a y-advance).
pub enum RayStop {
    Miss,
    Hit { vertical: bool, cx: int, cy: int },
}

/// Step direction along one axis: `-1` for a negative direction component,
/// `+1` otherwise.
pub open spec fn step_dir(d: int) -> int {
    if d < 0 {
        -1
    } else {
        1
    }
}

/// Whether the next vertical grid line comes strictly sooner along the ray
/// than the next horizontal one. The crossing parameters are the rationals
/// `nx / ax` and `ny / ay`, compared by cross-multiplication; a zero
/// direction component means that axis never advances.
pub open spec fn x_is_next(nx: int, ny: int, ax: int, ay: int) -> bool {
    if ax == 0 {
        false
    } else if ay == 0 {
        true
    } else {
        nx * ay < ny * ax
    }
}

/// The DDA traversal. State: current cell `(cx, cy)`, fixed-point gaps
/// `nx`/`ny` from the origin to the next grid line on each axis (measured
/// along that axis), step directions `sx`/`sy`, direction magnitudes
/// `ax`/`ay`, and remaining `fuel`.
pub open spec fn dda_search(
    g: Seq<Seq<Cell>>,
    c: int,
    sx: int,
    sy: int,
    ax: int,
    ay: int,
    cx: int,
    cy: int,
    nx: int,
    ny: int,
    fuel: nat,
) -> RayStop
    decreases fuel,
{
    if fuel == 0 {
        RayStop::Miss
    } else if x_is_next(nx, ny, ax, ay) {
        if !cell_in_bounds(g, cy, cx + sx) {
            RayStop::Miss
        } else if g[cy][cx + sx] != Cell::Empty {
            RayStop::Hit { vertical: true, cx: cx + sx, cy }
        } else {
            dda_search(g, c, sx, sy, ax, ay, cx + sx, cy, nx + c, ny, (fuel - 1) as nat)
        }
    } else {
        if !cell_in_bounds(g, cy + sy, cx) {
            RayStop::Miss
        } else if g[cy + sy][cx] != Cell::Empty {
            RayStop::Hit { vertical: false, cx, cy: cy + sy }
        } else {
            dda_search(g, c, sx, sy, ax, ay, cx, cy + sy, nx, ny + c, (fuel - 1) as nat)
        }
    }
}

/// Fixed-point gap from `o` to the first grid line in the step direction of
/// `d`: in `[0, c)` against the direction, in `(0, c]` along it.
pub open spec fn first_line_gap(o: int, c: int, d: int) -> int {
    if d < 0 {
        o % c
    } else {
        c - (o % c)
    }
}

/// The traversal started from the cast's initial state.
pub open spec fn ray_stop(
    g: Seq<Seq<Cell>>,
    c: int,
    ox: int,
    oy: int,
    dx: int,
    dy: int,
) -> RayStop {
    dda_search(
        g,
        c,
        step_dir(dx),
        step_dir(dy),
        abs_i(dx),
        abs_i(dy),
        ox / c,
        oy / c,
        first_line_gap(ox, c, dx),
        first_line_gap(oy, c, dy),
        MAX_STEPS as nat,
    )
}

/// Coordinate of the grid line crossed when the traversal entered `cell`
/// moving along `d`: the low edge heading up, the high edge heading down.
pub open spec fn crossing_line(c: int, d: int, cell: int) -> int {
    if d < 0 {
        (cell + 1) * c
    } else {
        cell * c
    }
}

/// Offset covered along one direction component by a ray of perpendicular
/// length `dist`, rounded toward the origin.
pub open spec fn dir_offset(dist: int, d: int) -> int {
    if d < 0 {
        -((dist * -d) / (FP as int))
    } else {
        (dist * d) / (FP as int)
    }
}

/// The full mathematical model of one cast: traversal, perpendicular
/// distance from the exact struck grid line, and continuous hit point.
pub open spec fn cast_model(
    g: Seq<Seq<Cell>>,
    c: int,
    ox: int,
    oy: int,
    dx: int,
    dy: int,
) -> IntersectModel {
    match ray_stop(g, c, ox, oy, dx, dy) {
        RayStop::Miss => (IntersectModel {
            hit: false,
            distance: 0,
            hit_x: ox,
            hit_y: oy,
            impact: Cell::Empty,
            vertical: false,
        }),
        RayStop::Hit { vertical, cx, cy } => {
            let n = if vertical {
                abs_i(crossing_line(c, dx, cx) - ox)
            } else {
                abs_i(crossing_line(c, dy, cy) - oy)
            };
            let den = if vertical {
                abs_i(dx)
            } else {
                abs_i(dy)
            };
            let dist = n * FP / den;
            IntersectModel {
                hit: true,
                distance: dist,
                hit_x: ox + dir_offset(dist, dx),
                hit_y: oy + dir_offset(dist, dy),
                impact: g[cy][cx],
                vertical,
            }
        },
    }
}

/// Cast one ray from `(ox, oy)` along the direction `(dx, dy)` (fixed-point
/// components of magnitude at most one unit, not both zero) through `grid`
/// with cells of edge `cell_fp`. Returns exactly what [`cast_model`] says.
#[verifier::loop_isolation(false)]
#[verifier::rlimit(60)]
pub fn cast_ray(grid: &Grid, cell_fp: i64, ox: i64, oy: i64, dx: i64, dy: i64) -> (r: Intersect)
    requires
        1 <= cell_fp <= CELL_MAX,
        -COORD_MAX <= ox <= COORD_MAX,
        -COORD_MAX <= oy <= COORD_MAX,
        -FP <= dx <= FP,
        -FP <= dy <= FP,
        dx != 0 || dy != 0,
    ensures
        ({
            let m = cast_model(grid@, cell_fp as int, ox as int, oy as int, dx as int, dy as int);
            r.hit == m.hit && r.distance == m.distance && r.hit_x == m.hit_x && r.hit_y == m.hit_y
                && r.impact == m.impact && r.vertical == m.vertical
        }),
        -HIT_MAX <= r.hit_x <= HIT_MAX,
        -HIT_MAX <= r.hit_y <= HIT_MAX,
        0 <= r.distance,
{
    let ghost c_i: int = cell_fp as int;
    let ghost target: RayStop = ray_stop(
        grid@,
        c_i,
        ox as int,
        oy as int,
        dx as int,
        dy as int,
    );

    let ax: u64 = if dx < 0 {
        (-dx) as u64
    } else {
        dx as u64
    };
    let ay: u64 = if dy < 0 {
        (-dy) as u64
    } else {
        dy as u64
    };
    let sx: i64 = if dx < 0 {
        -1
    } else {
        1
    };
    let sy: i64 = if dy < 0 {
        -1
    } else {
        1
    };

    let mut cx: i64 = div_floor(ox, cell_fp);
    let mut cy: i64 = div_floor(oy, cell_fp);
    let ghost cx0: int = cx as int;
    let ghost cy0: int = cy as int;

    let rx: i64 = mod_euclid(ox, cell_fp);
    let ry: i64 = mod_euclid(oy, cell_fp);
    let mut nx: u64 = if dx < 0 {
        rx as u64
    } else {
        (cell_fp - rx) as u64
    };
    let mut ny: u64 = if dy < 0 {
        ry as u64
    } else {
        (cell_fp - ry) as u64
    };
    proof {
        lemma_fundamental_div_mod(ox as int, c_i);
        lemma_fundamental_div_mod(oy as int, c_i);
        assert(nx as int == first_line_gap(ox as int, c_i, dx as int));
        assert(ny as int == first_line_gap(oy as int, c_i, dy as int));
        lemma_gap_from_mod(ox as int, c_i, ox as int / c_i, ox as int % c_i);
        lemma_gap_from_mod(oy as int, c_i, oy as int / c_i, oy as int % c_i);
    }

    proof {
        assert(sx as int == step_dir(dx as int));
        assert(sy as int == step_dir(dy as int));
        assert(ax as int == abs_i(dx as int));
        assert(ay as int == abs_i(dy as int));
        assert(cx as int == ox as int / c_i);
        assert(cy as int == oy as int / c_i);
    }
    let mut steps: u64 = 0;
    let mut found: Option<(bool, i64, i64, u64, Cell)> = None;
    let mut done: bool = false;

    while !done && steps < MAX_STEPS
        invariant
            steps <= MAX_STEPS,
            !done ==> {
                &&& found is None
                &&& abs_i(cx as int - cx0) + abs_i(cy as int - cy0) <= steps
                &&& nx as int == (if dx < 0 {
                    ox as int - (cx as int) * c_i
                } else {
                    (cx as int + 1) * c_i - ox as int
                })
                &&& ny as int == (if dy < 0 {
                    oy as int - (cy as int) * c_i
                } else {
                    (cy as int + 1) * c_i - oy as int
                })
                &&& nx as int <= c_i + (steps as int) * 0x1_0000_0000
                &&& ny as int <= c_i + (steps as int) * 0x1_0000_0000
                &&& dda_search(
                    grid@,
                    c_i,
                    sx as int,
                    sy as int,
                    ax as int,
                    ay as int,
                    cx as int,
                    cy as int,
                    nx as int,
                    ny as int,
                    (MAX_STEPS - steps) as nat,
                ) == target
            },
            done ==> (match found {
                None => target is Miss,
                Some(f) => {
                    &&& target == (RayStop::Hit { vertical: f.0, cx: f.1 as int, cy: f.2 as int })
                    &&& cell_in_bounds(grid@, f.2 as int, f.1 as int)
                    &&& f.4 == grid@[f.2 as int][f.1 as int]
                    &&& f.4 != Cell::Empty
                    &&& (if f.0 {
                        f.3 as int == abs_i(
                            crossing_line(c_i, dx as int, f.1 as int) - ox as int,
                        ) && ax >= 1
                    } else {
                        f.3 as int == abs_i(
                            crossing_line(c_i, dy as int, f.2 as int) - oy as int,
                        ) && ay >= 1
                    })
                    &&& f.3 as int <= 42953967927296
                },
            }),
        decreases MAX_STEPS - steps + (if done {
            0int
        } else {
            1int
        }),
    {
        proof {
            assert(nx as int <= 42953967927296 && ny as int <= 42953967927296);
            assert((nx as int) * (ay as int) < 0x8000_0000_0000_0000) by (nonlinear_arith)
                requires
                    0 <= nx as int <= 42953967927296,
                    0 <= ay as int <= FP,
            ;
            assert((ny as int) * (ax as int) < 0x8000_0000_0000_0000) by (nonlinear_arith)
                requires
                    0 <= ny as int <= 42953967927296,
                    0 <= ax as int <= FP,
            ;
        }
        let advance_x: bool = if ax == 0 {
            false
        } else if ay == 0 {
            true
        } else {
            nx * ay < ny * ax
        };
        proof {
            assert(advance_x == x_is_next(nx as int, ny as int, ax as int, ay as int));
        }
        if advance_x {
            let cx2: i64 = cx + sx;
            match grid.cell_at(cy, cx2) {
                None => {
                    done = true;
                },
                Some(cell) => {
                    if cell != Cell::Empty {
                        found = Some((true, cx2, cy, nx, cell));
                        done = true;
                        proof {
                            if dx < 0 {
                                assert(crossing_line(c_i, dx as int, cx2 as int)
                                    == (cx as int) * c_i);
                            } else {
                                assert(crossing_line(c_i, dx as int, cx2 as int)
                                    == (cx2 as int) * c_i);
                                lemma_adjacent_line(cx as int, c_i);
                            }
                        }
                    } else {
                        proof {
                            if dx < 0 {
                                lemma_adjacent_line(cx2 as int, c_i);
                            } else {
                                lemma_adjacent_line(cx2 as int, c_i);
                            }
                        }
                        cx = cx2;
                        nx = nx + (cell_fp as u64);
                        steps = steps + 1;
                    }
                },
            }
        } else {
            let cy2: i64 = cy + sy;
            match grid.cell_at(cy2, cx) {
                None => {
                    done = true;
                },
                Some(cell) => {
                    if cell != Cell::Empty {
                        found = Some((false, cx, cy2, ny, cell));
                        done = true;
                        proof {
                            if dy < 0 {
                                assert(crossing_line(c_i, dy as int, cy2 as int)
                                    == (cy as int) * c_i);
                            } else {
                                assert(crossing_line(c_i, dy as int, cy2 as int)
                                    == (cy2 as int) * c_i);
                                lemma_adjacent_line(cy as int, c_i);
                            }
                        }
                    } else {
                        proof {
                            lemma_adjacent_line(cy2 as int, c_i);
                        }
                        cy = cy2;
                        ny = ny + (cell_fp as u64);
                        steps = steps + 1;
                    }
                },
            }
        }
    }
    proof {
        if !done {
            assert(MAX_STEPS - steps == 0);
            assert(target is Miss);
        }
    }

    match found {
        None => Intersect {
            hit: false,
            distance: 0,
            hit_x: ox,
            hit_y: oy,
            impact: Cell::Empty,
            vertical: false,
        },
        Some((vertical, hcx, hcy, n, tag)) => {
            let den: u64 = if vertical {
                ax
            } else {
                ay
            };
            proof {
                assert((n as int) * (FP as int) <= 0x2800_0000_0000_0000) by (nonlinear_arith)
                    requires
                        0 <= n as int <= 42953967927296,
                ;
            }
            let num: u64 = n * (FP as u64);
            let dist_u: u64 = num / den;
            proof {
                lemma_div_pos_is_pos(num as int, den as int);
                lemma_div_nonincreasing(num as int, den as int);
            }
            let dist: i64 = dist_u as i64;

            proof {
                crate::fixed::lemma_scale_le(dist_u as int, ax as int, FP as int);
                crate::fixed::lemma_scale_le(dist_u as int, ay as int, FP as int);
            }
            let off_x: u64 = (((dist_u as u128) * (ax as u128)) / (FP as u128)) as u64;
            let off_y: u64 = (((dist_u as u128) * (ay as u128)) / (FP as u128)) as u64;
            let hit_x: i64 = if dx < 0 {
                ox - (off_x as i64)
            } else {
                ox + (off_x as i64)
            };
            let hit_y: i64 = if dy < 0 {
                oy - (off_y as i64)
            } else {
                oy + (off_y as i64)
            };
            proof {
                assert(ax as int == abs_i(dx as int));
                assert(ay as int == abs_i(dy as int));
                assert(dist as int == cast_model(
                    grid@,
                    c_i,
                    ox as int,
                    oy as int,
                    dx as int,
                    dy as int,
                ).distance);
            }
            Intersect { hit: true, distance: dist, hit_x, hit_y, impact: tag, vertical }
        },
    }
}

/// Every border cell of an `nrows` by `ncols` grid is solid: a one-cell
/// thick wall ring.
pub open spec fn ring_walled(g: Seq<Seq<Cell>>, nrows: int, ncols: int) -> bool {
    forall|r: int, q: int|
        0 <= r < nrows && 0 <= q < ncols && (r == 0 || r == nrows - 1 || q == 0 || q == ncols
            - 1) ==> #[trigger] g[r][q] != Cell::Empty
}

/// Cells left before the traversal reaches the border along one axis.
pub open spec fn ring_budget(s: int, p: int, len: int) -> int {
    if s == 1 {
        len - 1 - p
    } else {
        p
    }
}

/// A traversal that reports a hit struck a solid cell inside the grid, and
/// the face it reports matches an axis the ray actually advances on.
proof fn lemma_dda_hit_site(
    g: Seq<Seq<Cell>>,
    c: int,
    sx: int,
    sy: int,
    ax: int,
    ay: int,
    cx: int,
    cy: int,
    nx: int,
    ny: int,
    fuel: nat,
)
    ensures
        (match dda_search(g, c, sx, sy, ax, ay, cx, cy, nx, ny, fuel) {
            RayStop::Miss => true,
            RayStop::Hit { vertical, cx: hx, cy: hy } => {
                &&& cell_in_bounds(g, hy, hx)
                &&& g[hy][hx] != Cell::Empty
                &&& (vertical ==> ax != 0)
                &&& (!vertical ==> ay != 0 || ax == 0)
            },
        }),
    decreases fuel,
{
    if fuel > 0 {
        if x_is_next(nx, ny, ax, ay) {
            if cell_in_bounds(g, cy, cx + sx) && g[cy][cx + sx] == Cell::Empty {
                lemma_dda_hit_site(g, c, sx, sy, ax, ay, cx + sx, cy, nx + c, ny, (fuel - 1) as nat);
            }
        } else {
            if cell_in_bounds(g, cy + sy, cx) && g[cy + sy][cx] == Cell::Empty {
                lemma_dda_hit_site(g, c, sx, sy, ax, ay, cx, cy + sy, nx, ny + c, (fuel - 1) as nat);
            }
        }
    }
}

/// A reported hit always strikes a solid cell inside the grid; a miss is
/// the only outcome that carries no cell.
pub proof fn lemma_hit_cell_solid(g: Seq<Seq<Cell>>, c: int, ox: int, oy: int, dx: int, dy: int)
    ensures
        cast_model(g, c, ox, oy, dx, dy).hit ==> cast_model(g, c, ox, oy, dx, dy).impact
            != Cell::Empty,
{
    lemma_dda_hit_site(
        g,
        c,
        step_dir(dx),
        step_dir(dy),
        abs_i(dx),
        abs_i(dy),
        ox / c,
        oy / c,
        first_line_gap(ox, c, dx),
        first_line_gap(oy, c, dy),
        MAX_STEPS as nat,
    );
}

/// From any interior cell of a ring-walled rectangle the traversal reports
/// a hit before it can leave the grid: each advance moves exactly one cell,
/// so the solid border is entered — and reported — before any
/// out-of-bounds cell is reached.
proof fn lemma_dda_ring_hits(
    g: Seq<Seq<Cell>>,
    c: int,
    sx: int,
    sy: int,
    ax: int,
    ay: int,
    cx: int,
    cy: int,
    nx: int,
    ny: int,
    nrows: int,
    ncols: int,
    fuel: nat,
)
    requires
        is_rect(g, nrows, ncols),
        3 <= nrows,
        3 <= ncols,
        ring_walled(g, nrows, ncols),
        1 <= cx <= ncols - 2,
        1 <= cy <= nrows - 2,
        sx == -1 || sx == 1,
        sy == -1 || sy == 1,
        ring_budget(sx, cx, ncols) + ring_budget(sy, cy, nrows) <= fuel,
    ensures
        dda_search(g, c, sx, sy, ax, ay, cx, cy, nx, ny, fuel) is Hit,
    decreases fuel,
{
    if x_is_next(nx, ny, ax, ay) {
        let cx2 = cx + sx;
        assert(cell_in_bounds(g, cy, cx2));
        if g[cy][cx2] == Cell::Empty {
            assert(1 <= cx2 <= ncols - 2);
            lemma_dda_ring_hits(
                g,
                c,
                sx,
                sy,
                ax,
                ay,
                cx2,
                cy,
                nx + c,
                ny,
                nrows,
                ncols,
                (fuel - 1) as nat,
            );
        }
    } else {
        let cy2 = cy + sy;
        assert(cell_in_bounds(g, cy2, cx));
        if g[cy2][cx] == Cell::Empty {
            assert(1 <= cy2 <= nrows - 2);
            lemma_dda_ring_hits(
                g,
                c,
                sx,
                sy,
                ax,
                ay,
                cx,
                cy2,
                nx,
                ny + c,
                nrows,
                ncols,
                (fuel - 1) as nat,
            );
        }
    }
}

/// Through a one-cell-thick wall ring no ray escapes: from any origin
/// strictly inside the ring, in any direction, the cast reports a hit, and
/// the perpendicular distance is at most the perpendicular distance to the
/// grid's outer boundary along the struck axis — the stepping never skips
/// a single-cell wall.
pub proof fn lemma_ring_no_escape(
    g: Seq<Seq<Cell>>,
    c: int,
    ox: int,
    oy: int,
    dx: int,
    dy: int,
    nrows: int,
    ncols: int,
)
    requires
        1 <= c,
        is_rect(g, nrows, ncols),
        3 <= nrows,
        3 <= ncols,
        nrows + ncols <= MAX_STEPS,
        ring_walled(g, nrows, ncols),
        c <= ox,
        ox < (ncols - 1) * c,
        c <= oy,
        oy < (nrows - 1) * c,
        dx != 0 || dy != 0,
    ensures
        cast_model(g, c, ox, oy, dx, dy).hit,
        cast_model(g, c, ox, oy, dx, dy).vertical ==> dx != 0 && cast_model(
            g,
            c,
            ox,
            oy,
            dx,
            dy,
        ).distance <= (ncols * c) * FP / abs_i(dx),
        !cast_model(g, c, ox, oy, dx, dy).vertical ==> dy != 0 && cast_model(
            g,
            c,
            ox,
            oy,
            dx,
            dy,
        ).distance <= (nrows * c) * FP / abs_i(dy),
{
    let cx0 = ox / c;
    let cy0 = oy / c;
    lemma_div_is_ordered(c, ox, c);
    lemma_div_is_ordered(c, oy, c);
    vstd::arithmetic::div_mod::lemma_div_by_self(c);
    assert(c * (ncols - 1) == (ncols - 1) * c) by (nonlinear_arith);
    assert(c * (nrows - 1) == (nrows - 1) * c) by (nonlinear_arith);
    vstd::arithmetic::div_mod::lemma_multiply_divide_lt(ox, c, ncols - 1);
    vstd::arithmetic::div_mod::lemma_multiply_divide_lt(oy, c, nrows - 1);
    assert(1 <= cx0 <= ncols - 2);
    assert(1 <= cy0 <= nrows - 2);
    let sx = step_dir(dx);
    let sy = step_dir(dy);
    let ax = abs_i(dx);
    let ay = abs_i(dy);
    let nx0 = first_line_gap(ox, c, dx);
    let ny0 = first_line_gap(oy, c, dy);
    lemma_dda_ring_hits(g, c, sx, sy, ax, ay, cx0, cy0, nx0, ny0, nrows, ncols, MAX_STEPS as nat);
    lemma_dda_hit_site(g, c, sx, sy, ax, ay, cx0, cy0, nx0, ny0, MAX_STEPS as nat);
    let stop = ray_stop(g, c, ox, oy, dx, dy);
    match stop {
        RayStop::Miss => {
            assert(false);
        },
        RayStop::Hit { vertical, cx: hx, cy: hy } => {
            assert(0 <= hy < nrows && 0 <= hx < ncols);
            if vertical {
                let w = crossing_line(c, dx, hx);
                assert(0 <= w <= ncols * c) by (nonlinear_arith)
                    requires
                        w == (if dx < 0 {
                            (hx + 1) * c
                        } else {
                            hx * c
                        }),
                        0 <= hx <= ncols - 1,
                        1 <= c,
                ;
                assert(ox <= ncols * c) by (nonlinear_arith)
                    requires
                        ox < (ncols - 1) * c,
                        1 <= c,
                        3 <= ncols,
                ;
                let n = abs_i(w - ox);
                assert(n <= ncols * c);
                lemma_mul_inequality(n, ncols * c, FP as int);
                lemma_div_is_ordered(n * (FP as int), (ncols * c) * (FP as int), ax);
            } else {
                let w = crossing_line(c, dy, hy);
                assert(0 <= w <= nrows * c) by (nonlinear_arith)
                    requires
                        w == (if dy < 0 {
                            (hy + 1) * c
                        } else {
                            hy * c
                        }),
                        0 <= hy <= nrows - 1,
                        1 <= c,
                ;
                assert(oy <= nrows * c) by (nonlinear_arith)
                    requires
                        oy < (nrows - 1) * c,
                        1 <= c,
                        3 <= nrows,
                ;
                let n = abs_i(w - oy);
                assert(n <= nrows * c);
                lemma_mul_inequality(n, nrows * c, FP as int);
                lemma_div_is_ordered(n * (FP as int), (nrows * c) * (FP as int), ay);
            }
        },
    }
}

/// Along a pure x-axis ray every hit is a vertical face.
proof fn lemma_dda_axis_x(
    g: Seq<Seq<Cell>>,
    c: int,
    sx: int,
    sy: int,
    ax: int,
    ay: int,
    cx: int,
    cy: int,
    nx: int,
    ny: int,
    fuel: nat,
)
    requires
        ax != 0,
        ay == 0,
    ensures
        (match dda_search(g, c, sx, sy, ax, ay, cx, cy, nx, ny, fuel) {
            RayStop::Miss => true,
            RayStop::Hit { vertical, .. } => vertical,
        }),
    decreases fuel,
{
    if fuel > 0 {
        if cell_in_bounds(g, cy, cx + sx) && g[cy][cx + sx] == Cell::Empty {
            lemma_dda_axis_x(g, c, sx, sy, ax, ay, cx + sx, cy, nx + c, ny, (fuel - 1) as nat);
        }
    }
}

/// Along a pure y-axis ray every hit is a horizontal face.
proof fn lemma_dda_axis_y(
    g: Seq<Seq<Cell>>,
    c: int,
    sx: int,
    sy: int,
    ax: int,
    ay: int,
    cx: int,
    cy: int,
    nx: int,
    ny: int,
    fuel: nat,
)
    requires
        ax == 0,
    ensures
        (match dda_search(g, c, sx, sy, ax, ay, cx, cy, nx, ny, fuel) {
            RayStop::Miss => true,
            RayStop::Hit { vertical, .. } => !vertical,
        }),
    decreases fuel,
{
    if fuel > 0 {
        if cell_in_bounds(g, cy + sy, cx) && g[cy + sy][cx] == Cell::Empty {
            lemma_dda_axis_y(g, c, sx, sy, ax, ay, cx, cy + sy, nx, ny + c, (fuel - 1) as nat);
        }
    }
}

/// For a ray cast straight along the x axis (a unit direction with no y
/// component) the perpendicular distance equals the Euclidean distance to
/// the hit point exactly, and the hit point stays on the ray's own row.
pub proof fn lemma_axis_distance_exact_x(g: Seq<Seq<Cell>>, c: int, ox: int, oy: int, dx: int)
    requires
        1 <= c,
        dx == FP || dx == -FP,
    ensures
        ({
            let m = cast_model(g, c, ox, oy, dx, 0);
            m.hit ==> m.vertical && m.hit_y == oy && m.distance == abs_i(m.hit_x - ox)
        }),
{
    let m = cast_model(g, c, ox, oy, dx, 0);
    lemma_dda_axis_x(
        g,
        c,
        step_dir(dx),
        step_dir(0),
        abs_i(dx),
        0,
        ox / c,
        oy / c,
        first_line_gap(ox, c, dx),
        first_line_gap(oy, c, 0),
        MAX_STEPS as nat,
    );
    match ray_stop(g, c, ox, oy, dx, 0) {
        RayStop::Miss => {
        },
        RayStop::Hit { vertical, cx: hx, cy: hy } => {
            let n = abs_i(crossing_line(c, dx, hx) - ox);
            lemma_mul_is_commutative(n, FP as int);
            lemma_div_multiples_vanish(n, FP as int);
            assert(m.distance == n);
            lemma_mul_is_commutative(m.distance, FP as int);
            lemma_div_multiples_vanish(m.distance, FP as int);
            assert(m.distance * 0 == 0) by (nonlinear_arith);
            vstd::arithmetic::div_mod::lemma_div_of0(FP as int);
        },
    }
}

/// For a ray cast straight along the y axis the perpendicular distance
/// equals the Euclidean distance to the hit point exactly, and the hit
/// point stays on the ray's own column.
pub proof fn lemma_axis_distance_exact_y(g: Seq<Seq<Cell>>, c: int, ox: int, oy: int, dy: int)
    requires
        1 <= c,
        dy == FP || dy == -FP,
    ensures
        ({
            let m = cast_model(g, c, ox, oy, 0, dy);
            m.hit ==> !m.vertical && m.hit_x == ox && m.distance == abs_i(m.hit_y - oy)
        }),
{
    let m = cast_model(g, c, ox, oy, 0, dy);
    lemma_dda_axis_y(
        g,
        c,
        step_dir(0),
        step_dir(dy),
        0,
        abs_i(dy),
        ox / c,
        oy / c,
        first_line_gap(ox, c, 0),
        first_line_gap(oy, c, dy),
        MAX_STEPS as nat,
    );
    match ray_stop(g, c, ox, oy, 0, dy) {
        RayStop::Miss => {
        },
        RayStop::Hit { vertical, cx: hx, cy: hy } => {
            let n = abs_i(crossing_line(c, dy, hy) - oy);
            lemma_mul_is_commutative(n, FP as int);
            lemma_div_multiples_vanish(n, FP as int);
            assert(m.distance == n);
            lemma_mul_is_commutative(m.distance, FP as int);
            lemma_div_multiples_vanish(m.distance, FP as int);
            assert(m.distance * 0 == 0) by (nonlinear_arith);
            vstd::arithmetic::div_mod::lemma_div_of0(FP as int);
        },
    }
}

/// A ray cast east, at any speed, from a cell whose eastern neighbour is
/// outside the grid (the last column, or a ragged row's edge) misses: the
/// very first advance leaves the grid, and the traversal stops rather
/// than wrapping or running on.
pub proof fn lemma_cast_exits_east(g: Seq<Seq<Cell>>, c: int, ox: int, oy: int, dx: int)
    requires
        1 <= c,
        1 <= dx,
        !cell_in_bounds(g, oy / c, ox / c + 1),
    ensures
        !cast_model(g, c, ox, oy, dx, 0).hit,
{
}

/// A ray cast south, at any speed, from a cell whose southern neighbour
/// is outside the grid (the last row) misses on its very first advance.
pub proof fn lemma_cast_exits_south(g: Seq<Seq<Cell>>, c: int, ox: int, oy: int, dy: int)
    requires
        1 <= c,
        1 <= dy,
        !cell_in_bounds(g, oy / c + 1, ox / c),
    ensures
        !cast_model(g, c, ox, oy, 0, dy).hit,
{
}

/// A grid with nothing in it: every in-bounds cell is floor.
pub open spec fn all_empty(g: Seq<Seq<Cell>>) -> bool {
    forall|r: int, q: int| cell_in_bounds(g, r, q) ==> #[trigger] g[r][q] == Cell::Empty
}

/// In an all-empty grid the traversal can only run out of grid or out of
/// steps: it never reports a hit.
proof fn lemma_dda_empty_misses(
    g: Seq<Seq<Cell>>,
    c: int,
    sx: int,
    sy: int,
    ax: int,
    ay: int,
    cx: int,
    cy: int,
    nx: int,
    ny: int,
    fuel: nat,
)
    requires
        all_empty(g),
    ensures
        dda_search(g, c, sx, sy, ax, ay, cx, cy, nx, ny, fuel) is Miss,
    decreases fuel,
{
    if fuel > 0 {
        if x_is_next(nx, ny, ax, ay) {
            if cell_in_bounds(g, cy, cx + sx) {
                lemma_dda_empty_misses(g, c, sx, sy, ax, ay, cx + sx, cy, nx + c, ny, (fuel
                    - 1) as nat);
            }
        } else {
            if cell_in_bounds(g, cy + sy, cx) {
                lemma_dda_empty_misses(g, c, sx, sy, ax, ay, cx, cy + sy, nx, ny + c, (fuel
                    - 1) as nat);
            }
        }
    }
}

/// With no solid cell anywhere ahead — here, anywhere at all — a cast in
/// any direction returns the canonical no-hit record, never a fault: the
/// open-space generalization of leaving the grid at its edge.
pub proof fn lemma_open_grid_misses(g: Seq<Seq<Cell>>, c: int, ox: int, oy: int, dx: int, dy: int)
    requires
        1 <= c,
        all_empty(g),
    ensures
        !cast_model(g, c, ox, oy, dx, dy).hit,
{
    lemma_dda_empty_misses(
        g,
        c,
        step_dir(dx),
        step_dir(dy),
        abs_i(dx),
        abs_i(dy),
        ox / c,
        oy / c,
        first_line_gap(ox, c, dx),
        first_line_gap(oy, c, dy),
        MAX_STEPS as nat,
    );
}

/// With `o == c * q + r` and `0 <= r < c`, the gaps from `o` to the grid
/// lines `q * c` and `(q + 1) * c` are `r` and `c - r`.
proof fn lemma_gap_from_mod(o: int, c: int, q: int, r: int)
    by (nonlinear_arith)
    requires
        1 <= c,
        o == c * q + r,
        0 <= r < c,
    ensures
        (q + 1) * c - o == c - r,
        o - q * c == r,
{
}

/// One grid line to the next: `(k + 1) * c == k * c + c`.
proof fn lemma_adjacent_line(k: int, c: int)
    by (nonlinear_arith)
    ensures
        (k + 1) * c == k * c + c,
{
}


} // verus!
