use raycaster::caster::cast_ray;
use raycaster::fixed::FP;
use raycaster::grid::{Cell, Grid};
use raycaster::project::{build_slices, project_wall_span, resolve_tex_u};

const CELL: i64 = 100 * FP;

fn ring_grid() -> Grid {
    let w = Cell::WallA;
    let e = Cell::Empty;
    Grid { rows: vec![vec![w, w, w], vec![w, e, w], vec![w, w, w]] }
}

#[test]
fn wall_span_inverse_in_distance() {
    // screen 900 px, projection plane 140 units: a wall 50 units away is
    // 450 * 140 / 50 = 1260 px tall, clamped to the screen.
    let span = project_wall_span(50 * FP, 900, 140 * FP);
    assert_eq!(span, Some((0, 900)));

    // four times the distance: 315 px tall, centred on the horizon
    let span = project_wall_span(200 * FP, 900, 140 * FP);
    // height 315, top 450 - 157 = 293, bottom 450 + 157 = 607
    assert_eq!(span, Some((293, 607)));
}

#[test]
fn wall_span_skips_bad_distances() {
    assert_eq!(project_wall_span(0, 900, 140 * FP), None);
    assert_eq!(project_wall_span(-5 * FP, 900, 140 * FP), None);
    // so far away the span collapses to nothing
    assert_eq!(project_wall_span(i64::MAX / 2, 900, 140 * FP), None);
}

#[test]
fn wall_span_caps_height() {
    // a sliver of distance: the raw height would dwarf the screen; the
    // cap of twice the screen height keeps the span exactly the screen.
    let span = project_wall_span(1, 900, 140 * FP);
    assert_eq!(span, Some((0, 900)));
}

#[test]
fn tex_u_uses_coordinate_along_face() {
    // vertical face: the y fraction; horizontal face: the x fraction
    let u = resolve_tex_u(200 * FP, 150 * FP, CELL, true, FP, 0);
    assert_eq!(u, FP / 2);
    let u = resolve_tex_u(125 * FP, 100 * FP, CELL, false, 0, FP);
    assert_eq!(u, FP / 4);
}

#[test]
fn tex_u_mirrors_far_sides() {
    // vertical face seen travelling east mirrors; travelling west does not
    let quarter = resolve_tex_u(200 * FP, 125 * FP, CELL, true, -FP, 0);
    assert_eq!(quarter, FP / 4);
    let mirrored = resolve_tex_u(200 * FP, 125 * FP, CELL, true, FP, 0);
    assert_eq!(mirrored, FP - FP / 4);
    // horizontal face seen travelling north (negative y) mirrors
    let mirrored = resolve_tex_u(125 * FP, 200 * FP, CELL, false, 0, -FP);
    assert_eq!(mirrored, FP - FP / 4);
}

#[test]
fn tex_u_bounded_on_cell_boundary() {
    // a hit exactly on a cell corner: the fraction is 0 and stays 0 even
    // mirrored, keeping the result inside [0, FP)
    for &(vertical, dx, dy) in
        [(true, FP, 0i64), (true, -FP, 0), (false, 0, FP), (false, 0, -FP)].iter()
    {
        let u = resolve_tex_u(300 * FP, 200 * FP, CELL, vertical, dx, dy);
        assert!(0 <= u && u < FP);
        assert_eq!(u, 0);
    }
    // negative coordinates still land in [0, FP)
    let u = resolve_tex_u(-25 * FP, -50 * FP, CELL, false, 0, FP);
    assert_eq!(u, 3 * FP / 4);
}

#[test]
fn slices_match_individual_casts() {
    let g = ring_grid();
    let dirs: Vec<(i64, i64)> = vec![(FP, 0), (-FP, 0), (0, -FP)];
    let slices = build_slices(&g, CELL, 150 * FP, 150 * FP, &dirs, 900, 140 * FP);
    assert_eq!(slices.len(), 3);
    for (k, s) in slices.iter().enumerate() {
        assert_eq!(s.column, k);
        let r = cast_ray(&g, CELL, 150 * FP, 150 * FP, dirs[k].0, dirs[k].1);
        assert!(r.hit);
        assert_eq!(s.distance, r.distance);
        assert_eq!(s.impact, r.impact);
        let u = resolve_tex_u(r.hit_x, r.hit_y, CELL, r.vertical, dirs[k].0, dirs[k].1);
        assert_eq!(s.tex_u, u);
        let span = project_wall_span(r.distance, 900, 140 * FP).unwrap();
        assert_eq!((s.top, s.bottom), span);
    }
}

#[test]
fn slices_skip_missing_columns() {
    // open grid: the eastward ray leaves the grid, so its column
    // contributes no slice and the others keep their own column indices
    let w = Cell::WallA;
    let e = Cell::Empty;
    let g = Grid { rows: vec![vec![w, w, w], vec![w, e, e], vec![w, w, w]] };
    let dirs: Vec<(i64, i64)> = vec![(0, -FP), (FP, 0), (-FP, 0)];
    let slices = build_slices(&g, CELL, 150 * FP, 150 * FP, &dirs, 900, 140 * FP);
    assert_eq!(slices.len(), 2);
    assert_eq!(slices[0].column, 0);
    assert_eq!(slices[1].column, 2);
}
