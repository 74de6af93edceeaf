use raycaster::fixed::{FP, PI_FP, TWO_PI_FP};
use raycaster::grid::Cell;
use raycaster::project::Slice;
use raycaster::sprite::{project_sprite, SpriteView};

fn wall_slice(column: usize, distance: i64) -> Slice {
    Slice { column, top: 100, bottom: 800, tex_u: 0, impact: Cell::WallA, distance }
}

#[test]
fn behind_viewer_is_culled() {
    // relative angle of half a turn: culled for any field of view short
    // of a full circle, whatever else the inputs say
    let slices: Vec<Slice> = Vec::new();
    for &fov in [PI_FP / 3, PI_FP, TWO_PI_FP - 1].iter() {
        let r = project_sprite(
            500 * FP,
            100 * FP,
            100 * FP,
            100 * FP,
            PI_FP,
            -FP,
            fov,
            1300,
            450,
            70 * FP,
            FP,
            &slices,
        );
        assert!(matches!(r, SpriteView::Culled));
    }
}

#[test]
fn behind_viewer_is_culled_whole_turns_away() {
    // the same half turn plus a whole turn still counts as behind
    let slices: Vec<Slice> = Vec::new();
    let r = project_sprite(
        500 * FP,
        100 * FP,
        100 * FP,
        100 * FP,
        PI_FP + TWO_PI_FP,
        -FP,
        PI_FP / 3,
        1300,
        450,
        70 * FP,
        FP,
        &slices,
    );
    assert!(matches!(r, SpriteView::Culled));
}

#[test]
fn just_outside_fov_is_culled_inside_is_not() {
    let slices: Vec<Slice> = Vec::new();
    let fov = PI_FP / 3;
    let outside = project_sprite(
        200 * FP,
        100 * FP,
        100 * FP,
        100 * FP,
        fov / 2 + 1,
        FP,
        fov,
        1300,
        450,
        70 * FP,
        FP,
        &slices,
    );
    assert!(matches!(outside, SpriteView::Culled));
    let inside = project_sprite(
        200 * FP,
        100 * FP,
        100 * FP,
        100 * FP,
        fov / 2,
        FP,
        fov,
        1300,
        450,
        70 * FP,
        FP,
        &slices,
    );
    assert!(!matches!(inside, SpriteView::Culled));
}

#[test]
fn occlusion_compares_radial_distance() {
    // a wall slice at column 5 with perpendicular distance 100 units:
    // a sprite at radial distance 150 in that column is hidden, one at 50
    // is visible. width 11 and relative angle 0 put the sprite in column 5.
    let fov = PI_FP / 3;
    let slices = vec![wall_slice(5, 100 * FP)];

    let hidden = project_sprite(
        250 * FP,
        100 * FP,
        100 * FP,
        100 * FP,
        0,
        FP,
        fov,
        11,
        450,
        70 * FP,
        FP,
        &slices,
    );
    match hidden {
        SpriteView::Occluded { column } => assert_eq!(column, 5),
        _ => panic!("sprite at 150 units behind a wall at 100 must be occluded"),
    }

    let visible = project_sprite(
        150 * FP,
        100 * FP,
        100 * FP,
        100 * FP,
        0,
        FP,
        fov,
        11,
        450,
        70 * FP,
        FP,
        &slices,
    );
    match visible {
        SpriteView::Visible { column, radial, perp, .. } => {
            assert_eq!(column, 5);
            assert_eq!(radial, 50 * FP);
            assert_eq!(perp, 50 * FP);
        },
        _ => panic!("sprite at 50 units in front of a wall at 100 must be visible"),
    }
}

#[test]
fn other_columns_do_not_occlude() {
    // the wall is recorded for a different column: no occlusion
    let fov = PI_FP / 3;
    let slices = vec![wall_slice(7, 10 * FP)];
    let r = project_sprite(
        250 * FP,
        100 * FP,
        100 * FP,
        100 * FP,
        0,
        FP,
        fov,
        10,
        450,
        70 * FP,
        FP,
        &slices,
    );
    assert!(matches!(r, SpriteView::Visible { .. }));
}

#[test]
fn sprite_height_inverse_in_distance() {
    // straight ahead at 50 units, cosine one: perpendicular equals
    // radial, height = 450 * 70 / 50 = 630 pixels at size one
    let slices: Vec<Slice> = Vec::new();
    let r = project_sprite(
        150 * FP,
        100 * FP,
        100 * FP,
        100 * FP,
        0,
        FP,
        PI_FP / 3,
        1300,
        450,
        70 * FP,
        FP,
        &slices,
    );
    match r {
        SpriteView::Visible { height, radial, perp, column } => {
            assert_eq!(radial, 50 * FP);
            assert_eq!(perp, 50 * FP);
            assert_eq!(height, 630);
            // dead ahead lands on the exact centre column
            assert_eq!(column, 650);
        },
        _ => panic!("unobstructed sprite must be visible"),
    }
}
