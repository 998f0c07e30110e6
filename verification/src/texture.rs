//! The checkerboard texture: which of its two colours a surface point gets.

use vstd::prelude::*;

verus! {

/// Whether the checkerboard cell at column `u_cell` and row `v_cell` shows
/// the first colour: cells whose indices add up to an even number do.
pub open spec fn first_colour_cell(u_cell: int, v_cell: int) -> bool {
    (u_cell + v_cell) % 2 == 0
}

/// Whether a checkerboard surface shows its first colour in cell
/// (`u_cell`, `v_cell`). With textures turned off the first colour is shown
/// everywhere.
pub fn checker_uses_first(textures_on: bool, u_cell: i32, v_cell: i32) -> (r: bool)
    requires
        textures_on ==> i32::MIN <= u_cell + v_cell <= i32::MAX,
    ensures
        r == (!textures_on || first_colour_cell(u_cell as int, v_cell as int)),
{
    if !textures_on {
        return true;
    }
    (u_cell + v_cell) % 2 == 0
}

/// Neighbouring cells of the checkerboard, side by side or one above the
/// other, never show the same colour.
pub proof fn lemma_neighbours_differ(u_cell: int, v_cell: int)
    ensures
        first_colour_cell(u_cell, v_cell) != first_colour_cell(u_cell + 1, v_cell),
        first_colour_cell(u_cell, v_cell) != first_colour_cell(u_cell, v_cell + 1),
{
}

} // verus!
