use raycaster::color::{cell_to_color, minimap_cell_color, world_to_minimap, Rgba};
use raycaster::fixed::FP;
use raycaster::grid::{Cell, Grid};
use raycaster::maze::decode_maze;

const CELL: i64 = 100 * FP;

fn chars(rows: &[&str]) -> Vec<Vec<char>> {
    rows.iter().map(|r| r.chars().collect()).collect()
}

#[test]
fn decode_separates_entities_from_geometry() {
    let raw = chars(&["+-|g", "+.r ", "+cC."]);
    let (grid, pills, ghosts) = decode_maze(&raw, CELL);

    // geometry: markers cleared to floor, unknown nothing here
    assert_eq!(grid.rows.len(), 3);
    assert_eq!(
        grid.rows[0],
        vec![Cell::WallA, Cell::WallB, Cell::WallC, Cell::Goal]
    );
    assert_eq!(
        grid.rows[1],
        vec![Cell::WallA, Cell::Empty, Cell::Empty, Cell::Empty]
    );
    assert_eq!(
        grid.rows[2],
        vec![Cell::WallA, Cell::Empty, Cell::Empty, Cell::Empty]
    );

    // pills at cell centres, row-major
    assert_eq!(pills, vec![(150 * FP, 150 * FP), (350 * FP, 250 * FP)]);

    // ghosts with their kinds
    assert_eq!(ghosts.len(), 3);
    assert_eq!((ghosts[0].x, ghosts[0].y, ghosts[0].red), (250 * FP, 150 * FP, true));
    assert_eq!((ghosts[1].x, ghosts[1].y, ghosts[1].red), (150 * FP, 250 * FP, false));
    assert_eq!((ghosts[2].x, ghosts[2].y, ghosts[2].red), (250 * FP, 250 * FP, false));
}

#[test]
fn decode_treats_unknown_as_solid() {
    let raw = chars(&["x"]);
    let (grid, pills, ghosts) = decode_maze(&raw, CELL);
    assert_eq!(grid.rows[0], vec![Cell::WallA]);
    assert!(pills.is_empty());
    assert!(ghosts.is_empty());
}

#[test]
fn decode_keeps_ragged_rows() {
    let raw = chars(&["+++", "+", "+++++"]);
    let (grid, _, _) = decode_maze(&raw, CELL);
    assert_eq!(grid.rows[0].len(), 3);
    assert_eq!(grid.rows[1].len(), 1);
    assert_eq!(grid.rows[2].len(), 5);
}

#[test]
fn overhead_colors_follow_the_palette() {
    assert_eq!(cell_to_color(Cell::WallA), Rgba { r: 138, g: 43, b: 226, a: 255 });
    assert_eq!(cell_to_color(Cell::WallB), Rgba { r: 238, g: 130, b: 238, a: 255 });
    assert_eq!(cell_to_color(Cell::WallC), Rgba { r: 238, g: 130, b: 238, a: 255 });
    assert_eq!(cell_to_color(Cell::Goal), Rgba { r: 0, g: 128, b: 0, a: 255 });
    assert_eq!(cell_to_color(Cell::Empty), Rgba { r: 255, g: 255, b: 255, a: 255 });
}

#[test]
fn minimap_colors_follow_the_palette() {
    assert_eq!(minimap_cell_color(Cell::WallA), Rgba { r: 70, g: 130, b: 180, a: 255 });
    assert_eq!(minimap_cell_color(Cell::WallB), Rgba { r: 70, g: 130, b: 180, a: 255 });
    assert_eq!(minimap_cell_color(Cell::Goal), Rgba { r: 0, g: 128, b: 0, a: 255 });
    assert_eq!(minimap_cell_color(Cell::Empty), Rgba { r: 0, g: 0, b: 0, a: 255 });
}

#[test]
fn minimap_transform_scales_cells_to_pixels() {
    // 12 pixels per 100-unit cell, 10 pixels of margin
    assert_eq!(world_to_minimap(0, CELL, 12, 10), 10);
    assert_eq!(world_to_minimap(150 * FP, CELL, 12, 10), 10 + 18);
    assert_eq!(world_to_minimap(400 * FP, CELL, 12, 10), 10 + 48);
}

#[test]
fn grid_lookup_handles_ragged_rows() {
    let raw = chars(&["++", "+", "++"]);
    let (grid, _, _) = decode_maze(&raw, CELL);
    let g: &Grid = &grid;
    assert_eq!(g.cell_at(0, 1), Some(Cell::WallA));
    assert_eq!(g.cell_at(1, 1), None); // beyond the short row
    assert_eq!(g.cell_at(1, 0), Some(Cell::WallA));
    assert_eq!(g.cell_at(-1, 0), None);
    assert_eq!(g.cell_at(3, 0), None);
    assert_eq!(g.cell_at(0, -1), None);
}
