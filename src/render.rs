use vstd::prelude::*;
use crate::board::{column_of, i_to_xy, row_of, valid_index};
use crate::geometry::{p_xy, pixel_x, pixel_y};

verus! {

/// Width of the selection highlight, in pixels.
pub const HIGHLIGHT_WIDTH: usize = 6;

/// Height of the selection highlight, in pixels.
pub const HIGHLIGHT_HEIGHT: usize = 10;

/// Phase (0 to 3) of the marching-ants highlight; it advances every eight frames.
pub open spec fn ants_phase(frame_counter: int) -> int {
    (frame_counter / 8) % 4
}

/// Whether the highlight pixel at `(x, y)` takes the first of its two colours
/// in phase `phase`: the colours alternate in bands two pixels wide.
pub open spec fn ants_first_colour(x: int, y: int, phase: int) -> bool {
    (x + y + phase) % 4 < 2
}

/// The marching-ants phase for a frame.
pub fn marching_ants_phase(frame_counter: usize) -> (r: u8)
    ensures
        r as int == ants_phase(frame_counter as int),
        r < 4,
{
    ((frame_counter / 8) % 4) as u8
}

/// Whether the highlight pixel at `(x, y)` takes the first colour in `phase`.
pub fn marching_ants_first_colour(x: usize, y: usize, phase: u8) -> (r: bool)
    ensures
        r == ants_first_colour(x as int, y as int, phase as int),
{
    let sum = x % 4 + y % 4 + (phase % 4) as usize;
    proof {
        assert((x + y + phase) % 4 == (x % 4 + y % 4 + phase % 4) % 4) by (nonlinear_arith)
            requires
                x >= 0,
                y >= 0,
                phase >= 0,
        {
            assert(x == 4 * (x / 4) + x % 4);
            assert(y == 4 * (y / 4) + y % 4);
            assert(phase == 4 * (phase / 4) + phase % 4);
        }
    }
    sum % 4 < 2
}

/// Top-left corner of the highlight drawn around the cell at `index`: one pixel
/// up and left of the cell's screen position.
pub fn highlight_origin(index: usize) -> (r: (usize, usize))
    requires
        valid_index(index as int),
    ensures
        r.0 as int == pixel_x(column_of(index as int), row_of(index as int)) - 1,
        r.1 as int == pixel_y(row_of(index as int)) - 1,
{
    let (x, y) = i_to_xy(index);
    let (p_x, p_y) = p_xy(x, y);
    (p_x as usize - 1, p_y as usize - 1)
}

} // verus!
