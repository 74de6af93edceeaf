use raycaster::caster::cast_ray;
use raycaster::fixed::FP;
use raycaster::grid::{Cell, Grid};

const CELL: i64 = 100 * FP;

fn grid_from(rows: &[&str]) -> Grid {
    let mut cells: Vec<Vec<Cell>> = Vec::new();
    for row in rows {
        let mut r: Vec<Cell> = Vec::new();
        for ch in row.chars() {
            r.push(match ch {
                ' ' => Cell::Empty,
                '+' => Cell::WallA,
                '-' => Cell::WallB,
                '|' => Cell::WallC,
                'g' => Cell::Goal,
                _ => Cell::WallA,
            });
        }
        cells.push(r);
    }
    Grid { rows: cells }
}

fn ring3() -> Grid {
    grid_from(&["+++", "+ +", "+++"])
}

#[test]
fn east_hit_through_center() {
    // 3x3 ring, origin at the very center, cast due east: the east wall
    // face is half a cell away.
    let g = ring3();
    let r = cast_ray(&g, CELL, 150 * FP, 150 * FP, FP, 0);
    assert!(r.hit);
    assert_eq!(r.distance, 50 * FP);
    assert!(r.vertical);
    assert_eq!(r.impact, Cell::WallA);
    assert_eq!(r.hit_x, 200 * FP);
    assert_eq!(r.hit_y, 150 * FP);
}

#[test]
fn axis_rays_give_euclidean_distance() {
    // Straight along either axis the perpendicular distance equals the
    // Euclidean distance exactly.
    let g = ring3();
    let west = cast_ray(&g, CELL, 150 * FP, 150 * FP, -FP, 0);
    assert!(west.hit);
    assert_eq!(west.distance, 50 * FP);
    assert_eq!(west.hit_x, 100 * FP);
    assert_eq!(west.hit_y, 150 * FP);
    assert_eq!(west.distance, (west.hit_x - 150 * FP).abs());

    let north = cast_ray(&g, CELL, 150 * FP, 150 * FP, 0, -FP);
    assert!(north.hit);
    assert_eq!(north.distance, 50 * FP);
    assert!(!north.vertical);
    assert_eq!(north.hit_y, 100 * FP);
    assert_eq!(north.distance, (north.hit_y - 150 * FP).abs());

    let south = cast_ray(&g, CELL, 150 * FP, 150 * FP, 0, FP);
    assert!(south.hit);
    assert_eq!(south.distance, 50 * FP);
    assert_eq!(south.hit_y, 200 * FP);
}

#[test]
fn ring_never_escapes() {
    // A one-cell-thick ring: every direction from inside must hit, and
    // close by. cos/sin pairs for eight bearings, fixed point.
    let g = grid_from(&["+++++", "+   +", "+   +", "+   +", "+++++"]);
    let dirs: [(i64, i64); 8] = [
        (FP, 0),
        (-FP, 0),
        (0, FP),
        (0, -FP),
        (46341, 46341),
        (-46341, 46341),
        (46341, -46341),
        (-46341, -46341),
    ];
    for &(dx, dy) in dirs.iter() {
        for &(ox, oy) in
            [(150 * FP, 150 * FP), (101 * FP, 101 * FP), (399 * FP, 250 * FP)].iter()
        {
            let r = cast_ray(&g, CELL, ox, oy, dx, dy);
            assert!(r.hit, "direction ({dx},{dy}) from ({ox},{oy}) escaped the ring");
            // never further than the grid's diagonal extent
            assert!(r.distance <= 500 * FP * 2);
        }
    }
}

#[test]
fn diagonal_distance_is_perpendicular() {
    // A 45-degree ray from the center of the 3x3 ring advances y first
    // (tie goes to the horizontal face) and reports the perpendicular
    // distance measured from the struck grid line.
    let g = ring3();
    let d45: i64 = 46341; // cos(pi/4) in fixed point
    let r = cast_ray(&g, CELL, 150 * FP, 150 * FP, d45, d45);
    assert!(r.hit);
    assert!(!r.vertical);
    let expected = (50i64 * FP as i64 * FP as i64) / d45;
    assert_eq!(r.distance, expected);
}

#[test]
fn off_grid_east_misses() {
    // From the last column, facing the open edge: a miss, not a hang.
    let g = grid_from(&["   ", "   ", "   "]);
    let r = cast_ray(&g, CELL, 250 * FP, 150 * FP, FP, 0);
    assert!(!r.hit);
    assert_eq!(r.distance, 0);
    assert_eq!(r.impact, Cell::Empty);
    assert_eq!(r.hit_x, 250 * FP);
    assert_eq!(r.hit_y, 150 * FP);
}

#[test]
fn off_grid_south_misses() {
    let g = grid_from(&["   ", "   ", "   "]);
    let r = cast_ray(&g, CELL, 150 * FP, 250 * FP, 0, FP);
    assert!(!r.hit);
}

#[test]
fn off_grid_misses_at_any_speed() {
    // the edge miss does not depend on a unit direction component
    let g = grid_from(&["   ", "   ", "   "]);
    assert!(!cast_ray(&g, CELL, 250 * FP, 150 * FP, 12345, 0).hit);
    assert!(!cast_ray(&g, CELL, 150 * FP, 250 * FP, 0, 3).hit);
}

#[test]
fn open_grid_misses_in_every_direction() {
    // nothing solid anywhere: every bearing runs out of grid, no fault
    let g = grid_from(&["   ", "   ", "   "]);
    let dirs: [(i64, i64); 6] =
        [(FP, 0), (-FP, 0), (0, FP), (0, -FP), (46341, 46341), (-46341, 23170)];
    for &(dx, dy) in dirs.iter() {
        let r = cast_ray(&g, CELL, 150 * FP, 150 * FP, dx, dy);
        assert!(!r.hit);
        assert_eq!((r.hit_x, r.hit_y), (150 * FP, 150 * FP));
        assert_eq!(r.impact, Cell::Empty);
        assert!(!r.vertical);
    }
}

#[test]
fn ragged_row_counts_as_out_of_bounds() {
    // The middle row is shorter; a ray crossing past its edge leaves the
    // grid instead of faulting.
    let g = grid_from(&["++++", "+ ", "++++"]);
    let r = cast_ray(&g, CELL, 150 * FP, 150 * FP, FP, 0);
    assert!(!r.hit);
}

#[test]
fn goal_cell_stops_rays() {
    let g = grid_from(&["+++", "+ g", "+++"]);
    let r = cast_ray(&g, CELL, 150 * FP, 150 * FP, FP, 0);
    assert!(r.hit);
    assert_eq!(r.impact, Cell::Goal);
}

#[test]
fn origin_on_grid_line() {
    // An origin exactly on a cell boundary still casts cleanly.
    let g = ring3();
    let r = cast_ray(&g, CELL, 100 * FP, 150 * FP, FP, 0);
    assert!(r.hit);
    assert_eq!(r.distance, 100 * FP);
    assert_eq!(r.hit_x, 200 * FP);
}
