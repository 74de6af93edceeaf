//! Colours for the two-dimensional views of the maze, as plain RGBA
//! values, and the world-to-minimap coordinate transform.

use vstd::prelude::*;

verus! {

use crate::fixed::{CELL_MAX, COORD_MAX};
use crate::grid::Cell;

/// A plain RGBA colour; the presentation layer converts it to whatever
/// its drawing library wants.
#[derive(Clone, Copy, PartialEq, Eq, Structural, Debug)]
pub struct Rgba {
    pub r: u8,
    pub g: u8,
    pub b: u8,
    pub a: u8,
}

/// The colour a cell gets in the overhead maze view.
pub open spec fn cell_color(cell: Cell) -> Rgba {
    match cell {
        Cell::WallA => Rgba { r: 138, g: 43, b: 226, a: 255 },
        Cell::WallB => Rgba { r: 238, g: 130, b: 238, a: 255 },
        Cell::WallC => Rgba { r: 238, g: 130, b: 238, a: 255 },
        Cell::Goal => Rgba { r: 0, g: 128, b: 0, a: 255 },
        Cell::Empty => Rgba { r: 255, g: 255, b: 255, a: 255 },
    }
}

/// The colour a cell gets in the overhead maze view: blue-violet for the
/// first wall variant, violet for the others, green for the goal, white
/// otherwise. Exactly [`cell_color`].
pub fn cell_to_color(cell: Cell) -> (c: Rgba)
    ensures
        c == cell_color(cell),
{
    match cell {
        Cell::WallA => Rgba { r: 138, g: 43, b: 226, a: 255 },
        Cell::WallB => Rgba { r: 238, g: 130, b: 238, a: 255 },
        Cell::WallC => Rgba { r: 238, g: 130, b: 238, a: 255 },
        Cell::Goal => Rgba { r: 0, g: 128, b: 0, a: 255 },
        Cell::Empty => Rgba { r: 255, g: 255, b: 255, a: 255 },
    }
}

/// The colour a cell gets on the minimap.
pub open spec fn minimap_color(cell: Cell) -> Rgba {
    match cell {
        Cell::WallA => Rgba { r: 70, g: 130, b: 180, a: 255 },
        Cell::WallB => Rgba { r: 70, g: 130, b: 180, a: 255 },
        Cell::WallC => Rgba { r: 70, g: 130, b: 180, a: 255 },
        Cell::Goal => Rgba { r: 0, g: 128, b: 0, a: 255 },
        Cell::Empty => Rgba { r: 0, g: 0, b: 0, a: 255 },
    }
}

/// The colour a cell gets on the minimap: steel blue walls, green goal,
/// black floor. Exactly [`minimap_color`].
pub fn minimap_cell_color(cell: Cell) -> (c: Rgba)
    ensures
        c == minimap_color(cell),
{
    match cell {
        Cell::WallA => Rgba { r: 70, g: 130, b: 180, a: 255 },
        Cell::WallB => Rgba { r: 70, g: 130, b: 180, a: 255 },
        Cell::WallC => Rgba { r: 70, g: 130, b: 180, a: 255 },
        Cell::Goal => Rgba { r: 0, g: 128, b: 0, a: 255 },
        Cell::Empty => Rgba { r: 0, g: 0, b: 0, a: 255 },
    }
}

/// A world coordinate mapped onto the minimap: `margin` pixels of border
/// plus `scale` pixels per cell.
pub fn world_to_minimap(pos: i64, cell_fp: i64, scale: u32, margin: u32) -> (px: u128)
    requires
        0 <= pos <= COORD_MAX,
        1 <= cell_fp <= CELL_MAX,
    ensures
        px == margin + (pos as int * scale as int) / (cell_fp as int),
{
    proof {
        assert(0 <= (pos as int) * (scale as int) <= 0x400_0000_0000_0000_0000_0000int)
            by (nonlinear_arith)
            requires
                0 <= pos as int <= 0x20_0000_0000_0000,
                0 <= scale as int <= 0xffff_ffff,
        ;
        vstd::arithmetic::div_mod::lemma_div_pos_is_pos(
            (pos as int) * (scale as int),
            cell_fp as int,
        );
        vstd::arithmetic::div_mod::lemma_div_nonincreasing(
            (pos as int) * (scale as int),
            cell_fp as int,
        );
    }
    let scaled: u128 = ((pos as u128) * (scale as u128)) / (cell_fp as u128);
    (margin as u128) + scaled
}

} // verus!
