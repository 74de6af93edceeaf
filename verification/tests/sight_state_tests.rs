use raycaster::fixed::{div_floor, isqrt, mod_euclid, normalize_angle, FP, PI_FP, TWO_PI_FP};
use raycaster::grid::{Cell, Grid};
use raycaster::player::{advance_player, can_stand, collect_pills, turn_player, within_radius};
use raycaster::sight::has_line_of_sight;
use raycaster::state::{step_mode, GameEvent, GameMode};

const CELL: i64 = 100 * FP;

fn corridor() -> Grid {
    let w = Cell::WallA;
    let e = Cell::Empty;
    // a 5-wide corridor with a wall pillar in the middle row
    Grid {
        rows: vec![
            vec![w, w, w, w, w],
            vec![w, e, e, e, w],
            vec![w, e, w, e, w],
            vec![w, e, e, e, w],
            vec![w, w, w, w, w],
        ],
    }
}

#[test]
fn sight_clear_down_open_row() {
    let g = corridor();
    assert!(has_line_of_sight(&g, CELL, 150 * FP, 150 * FP, 350 * FP, 150 * FP));
}

#[test]
fn sight_blocked_by_pillar() {
    // the straight segment passes through the wall cell in the middle
    let g = corridor();
    assert!(!has_line_of_sight(&g, CELL, 150 * FP, 250 * FP, 350 * FP, 250 * FP));
}

#[test]
fn sight_trivially_clear_at_same_point() {
    let g = corridor();
    assert!(has_line_of_sight(&g, CELL, 250 * FP, 250 * FP, 250 * FP, 250 * FP));
}

#[test]
fn sight_blocked_when_target_outside_grid() {
    let g = corridor();
    assert!(!has_line_of_sight(&g, CELL, 150 * FP, 150 * FP, 900 * FP, 150 * FP));
}

#[test]
fn mode_machine_follows_the_table() {
    assert_eq!(step_mode(GameMode::Menu, GameEvent::PlayPressed), GameMode::Warning);
    assert_eq!(step_mode(GameMode::Warning, GameEvent::WarningElapsed), GameMode::Playing);
    assert_eq!(step_mode(GameMode::Playing, GameEvent::PlayerCaught), GameMode::Screamer);
    assert_eq!(step_mode(GameMode::Playing, GameEvent::AllPillsCollected), GameMode::Win);
    assert_eq!(step_mode(GameMode::Screamer, GameEvent::ScreamerElapsed), GameMode::GameOver);
    assert_eq!(step_mode(GameMode::GameOver, GameEvent::RestartPressed), GameMode::Playing);
}

#[test]
fn mode_machine_ignores_stray_events() {
    assert_eq!(step_mode(GameMode::Menu, GameEvent::PlayerCaught), GameMode::Menu);
    assert_eq!(step_mode(GameMode::Playing, GameEvent::PlayPressed), GameMode::Playing);
    assert_eq!(step_mode(GameMode::Win, GameEvent::RestartPressed), GameMode::Win);
    assert_eq!(step_mode(GameMode::Screamer, GameEvent::PlayerCaught), GameMode::Screamer);
}

#[test]
fn pills_collected_by_distance() {
    let pills: Vec<(i64, i64)> = vec![
        (150 * FP, 150 * FP),
        (400 * FP, 150 * FP),
        (152 * FP, 148 * FP),
    ];
    let (kept, collected) = collect_pills(&pills, 150 * FP, 150 * FP, 24 * FP);
    assert_eq!(collected, 2);
    assert_eq!(kept, vec![(400 * FP, 150 * FP)]);
}

#[test]
fn pickup_radius_boundary_is_inclusive() {
    let pills: Vec<(i64, i64)> = vec![(124 * FP, 100 * FP)];
    let (kept, collected) = collect_pills(&pills, 100 * FP, 100 * FP, 24 * FP);
    assert_eq!(collected, 1);
    assert!(kept.is_empty());
    assert!(within_radius(124 * FP, 100 * FP, 100 * FP, 100 * FP, 24 * FP));
    assert!(!within_radius(124 * FP + 1, 100 * FP, 100 * FP, 100 * FP, 24 * FP));
}

#[test]
fn standing_room_respects_walls_and_bounds() {
    let g = corridor();
    assert!(can_stand(&g, CELL, 150 * FP, 150 * FP));
    assert!(!can_stand(&g, CELL, 250 * FP, 250 * FP)); // the pillar
    assert!(!can_stand(&g, CELL, 50 * FP, 50 * FP)); // outer wall
    assert!(!can_stand(&g, CELL, -10 * FP, 150 * FP)); // negative
    assert!(!can_stand(&g, CELL, 650 * FP, 150 * FP)); // beyond the grid
}

#[test]
fn turning_folds_into_half_turn() {
    let rot = PI_FP / 2;
    assert_eq!(turn_player(0, true, false, rot), rot);
    assert_eq!(turn_player(0, false, true, rot), -rot);
    assert_eq!(turn_player(0, true, true, rot), 0);
    // turning left past pi wraps to the negative side
    let wrapped = turn_player(PI_FP, true, false, rot);
    assert_eq!(wrapped, PI_FP + rot - TWO_PI_FP);
}

#[test]
fn walking_moves_along_direction() {
    // heading east, one step of 120 units
    let (x, y) = advance_player(150 * FP, 150 * FP, FP, 0, 120 * FP, true, false);
    assert_eq!((x, y), (270 * FP, 150 * FP));
    // backward undoes it
    let (x, y) = advance_player(150 * FP, 150 * FP, FP, 0, 120 * FP, false, true);
    assert_eq!((x, y), (30 * FP, 150 * FP));
    // both keys held cancel
    let (x, y) = advance_player(150 * FP, 150 * FP, FP, 0, 120 * FP, true, true);
    assert_eq!((x, y), (150 * FP, 150 * FP));
}

#[test]
fn angle_normalization_is_exact() {
    assert_eq!(normalize_angle(0), 0);
    assert_eq!(normalize_angle(PI_FP), PI_FP);
    assert_eq!(normalize_angle(PI_FP + 1), PI_FP + 1 - TWO_PI_FP);
    assert_eq!(normalize_angle(-PI_FP - 1), -PI_FP - 1 + TWO_PI_FP);
    assert_eq!(normalize_angle(5 * TWO_PI_FP + 3), 3);
    assert_eq!(normalize_angle(-5 * TWO_PI_FP - 3), -3);
}

#[test]
fn integer_sqrt_is_exact_floor() {
    assert_eq!(isqrt(0), 0);
    assert_eq!(isqrt(1), 1);
    assert_eq!(isqrt(2), 1);
    assert_eq!(isqrt(4), 2);
    assert_eq!(isqrt(99), 9);
    assert_eq!(isqrt(100), 10);
    assert_eq!(isqrt((1u128 << 90) + 123), 1 << 45);
    assert_eq!(isqrt(u128::MAX), u64::MAX);
}

#[test]
fn floor_division_and_remainder_handle_negatives() {
    assert_eq!(div_floor(7, 2), 3);
    assert_eq!(div_floor(-7, 2), -4);
    assert_eq!(div_floor(-8, 2), -4);
    assert_eq!(mod_euclid(7, 2), 1);
    assert_eq!(mod_euclid(-7, 2), 1);
    assert_eq!(mod_euclid(-8, 2), 0);
}
