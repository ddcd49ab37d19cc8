use vstd::prelude::*;
use crate::board::{
    column_of, index_of, is_left_column, lemma_coordinates_of_index, lemma_index_of_coordinates,
    row_of, valid_index, valid_xy, xy_to_i, ROW_TYPES,
};

verus! {

/// The four directions of cursor movement.
#[derive(Clone, Copy, Debug, PartialEq, Eq, Structural)]
pub enum Dir {
    Up,
    Down,
    Left,
    Right,
}

/// Index step of one row, as a signed offset.
const ROW_STEP: i8 = 40;

/// Horizontal distance between the left edges of neighbouring hexagons' halves.
const HEX_WIDTH: u8 = 4;

/// Vertical distance between rows, in pixels.
const HALF_HEX_HEIGHT: u8 = 4;

/// Margin between the board and the edge of the screen, in pixels.
const EDGE_OFFSET: u8 = 6;

/// The movement table: the index offset of the neighbour in direction `dir` of a
/// cell in a row of class `row_class` (row modulo 3), on the left half of its
/// hexagon or not. The stagger of the rows repeats every three rows, so the
/// table has three row classes, two sides and four directions.
pub open spec fn movement_offset(row_class: int, left: bool, dir: Dir) -> int {
    let w = 40int;
    if row_class == 0 {
        if left {
            match dir {
                Dir::Up => -(w + 1),
                Dir::Down => 2 * w - 1,
                Dir::Left => w - 1,
                Dir::Right => 1,
            }
        } else {
            match dir {
                Dir::Up => -(2 * w + 1),
                Dir::Down => w - 1,
                Dir::Left => -1,
                Dir::Right => -(w + 1),
            }
        }
    } else if row_class == 1 {
        if left {
            match dir {
                Dir::Up => -(w - 1),
                Dir::Down => 2 * w + 1,
                Dir::Left => w - 1,
                Dir::Right => 1,
            }
        } else {
            match dir {
                Dir::Up => -(2 * w + 1),
                Dir::Down => w - 1,
                Dir::Left => -1,
                Dir::Right => -(w - 1),
            }
        }
    } else {
        if left {
            match dir {
                Dir::Up => -(w - 1),
                Dir::Down => 2 * w + 1,
                Dir::Left => w + 1,
                Dir::Right => 1,
            }
        } else {
            match dir {
                Dir::Up => -(2 * w - 1),
                Dir::Down => w + 1,
                Dir::Left => -1,
                Dir::Right => -(w - 1),
            }
        }
    }
}

/// Offset of the neighbour in direction `dir` of the cell at column `x`, row `y`.
pub open spec fn offset_at(x: int, y: int, dir: Dir) -> int {
    movement_offset(y % 3, is_left_column(x), dir)
}

/// Index offset of the neighbour in direction `dir` of the cell at column `x`,
/// row `y`. The caller checks that the resulting index is on the board.
pub fn get_movement_offset(x: u8, y: u8, dir: Dir) -> (r: i8)
    ensures
        r as int == offset_at(x as int, y as int, dir),
{
    let w = ROW_STEP;
    let row_class = y % ROW_TYPES;
    let left = x % 2 == 0;
    if row_class == 0 {
        if left {
            match dir {
                Dir::Up => -(w + 1),
                Dir::Down => 2 * w - 1,
                Dir::Left => w - 1,
                Dir::Right => 1,
            }
        } else {
            match dir {
                Dir::Up => -(2 * w + 1),
                Dir::Down => w - 1,
                Dir::Left => -1,
                Dir::Right => -(w + 1),
            }
        }
    } else if row_class == 1 {
        if left {
            match dir {
                Dir::Up => -(w - 1),
                Dir::Down => 2 * w + 1,
                Dir::Left => w - 1,
                Dir::Right => 1,
            }
        } else {
            match dir {
                Dir::Up => -(2 * w + 1),
                Dir::Down => w - 1,
                Dir::Left => -1,
                Dir::Right => -(w - 1),
            }
        }
    } else {
        if left {
            match dir {
                Dir::Up => -(w - 1),
                Dir::Down => 2 * w + 1,
                Dir::Left => w + 1,
                Dir::Right => 1,
            }
        } else {
            match dir {
                Dir::Up => -(2 * w - 1),
                Dir::Down => w + 1,
                Dir::Left => -1,
                Dir::Right => -(w - 1),
            }
        }
    }
}

/// Horizontal screen position of the cell at column `x`, row `y`: each row is
/// shifted right by its class, and right halves sit two pixels to the left.
pub open spec fn pixel_x(x: int, y: int) -> int {
    x * 6 + (y % 3) * 4 + 6 - if is_left_column(x) {
        0int
    } else {
        2int
    }
}

/// Vertical screen position of the cell at row `y`.
pub open spec fn pixel_y(y: int) -> int {
    y * 4 + 6
}

/// Screen position of the cell at column `x`, row `y`.
pub fn p_xy(x: u8, y: u8) -> (r: (u8, u8))
    requires
        valid_xy(x as int, y as int),
    ensures
        r.0 as int == pixel_x(x as int, y as int),
        r.1 as int == pixel_y(y as int),
{
    let x_offset = (y % ROW_TYPES) * HEX_WIDTH;
    if x % 2 == 0 {
        (x * 6 + x_offset + EDGE_OFFSET, y * HALF_HEX_HEIGHT + EDGE_OFFSET)
    } else {
        (x * 6 + x_offset - 2 + EDGE_OFFSET, y * HALF_HEX_HEIGHT + EDGE_OFFSET)
    }
}

/// Whether going from column `x` to column `new_x` jumps across the left or
/// right edge of the board, which the flat index arithmetic cannot tell from a
/// genuine step.
pub open spec fn wraps_edge(x: int, new_x: int) -> bool {
    (x == 0 && new_x == 39) || (x == 39 && new_x == 0)
}

/// The cell reached from index `i` by the movement table in direction `dir`.
pub open spec fn neighbour_of(i: int, dir: Dir) -> int {
    i + offset_at(column_of(i), row_of(i), dir)
}

/// Whether the movement table's step from `i` in direction `dir` is taken: it
/// lands on the board and does not wrap across a side edge.
pub open spec fn step_accepted(i: int, dir: Dir) -> bool {
    valid_index(neighbour_of(i, dir)) && !wraps_edge(column_of(i), column_of(neighbour_of(i, dir)))
}

/// A step of `a` rows and `b` columns (|b| <= 1) from a cell either lands at
/// the expected coordinates or wraps across a side edge.
proof fn lemma_step_coordinates(i: int, a: int, b: int)
    requires
        valid_index(i),
        valid_index(i + 40 * a + b),
        -2 <= a <= 2,
        -1 <= b <= 1,
    ensures
        0 <= column_of(i) + b < 40 ==> column_of(i + 40 * a + b) == column_of(i) + b && row_of(
            i + 40 * a + b,
        ) == row_of(i) + a,
        column_of(i) + b < 0 ==> column_of(i + 40 * a + b) == 39,
        column_of(i) + b >= 40 ==> column_of(i + 40 * a + b) == 0,
{
    lemma_coordinates_of_index(i);
    lemma_coordinates_of_index(i + 40 * a + b);
}

/// Every accepted step of the movement table goes the way its direction says on
/// screen: up and down change the row's screen height, left and right move the
/// cell's screen position horizontally.
pub proof fn lemma_step_direction(i: int, dir: Dir)
    requires
        valid_index(i),
        step_accepted(i, dir),
    ensures
        ({
            let t = neighbour_of(i, dir);
            let (x, y) = (column_of(i), row_of(i));
            let (tx, ty) = (column_of(t), row_of(t));
            match dir {
                Dir::Up => pixel_y(ty) < pixel_y(y),
                Dir::Down => pixel_y(ty) > pixel_y(y),
                Dir::Left => pixel_x(tx, ty) < pixel_x(x, y),
                Dir::Right => pixel_x(tx, ty) > pixel_x(x, y),
            }
        }),
{
    lemma_coordinates_of_index(i);
    let x = column_of(i);
    let y = row_of(i);
    let off = offset_at(x, y, dir);
    let a: int = if off >= 60 {
        2
    } else if off >= 20 {
        1
    } else if off > -20 {
        0
    } else if off > -60 {
        -1
    } else {
        -2
    };
    let b: int = off - 40 * a;
    assert(-1 <= b <= 1);
    lemma_step_coordinates(i, a, b);
}

/// The cell whose screen position is `(px, py)`, if there is one: the row is
/// read from the height, then the column from the horizontal position once the
/// row's shift is taken off; left halves sit at multiples of twelve from the
/// row's start, right halves six further on, two pixels to the left.
pub open spec fn pixel_cell(px: int, py: int) -> Option<int> {
    if py < 6 || (py - 6) % 4 != 0 || (py - 6) / 4 >= 60 {
        None
    } else {
        let y = (py - 6) / 4;
        let base = px - 6 - (y % 3) * 4;
        if base >= 0 && base % 12 == 0 && base / 6 < 40 {
            Some(index_of(base / 6, y))
        } else if base + 2 >= 0 && (base + 2) % 12 == 6 && (base + 2) / 6 < 40 {
            Some(index_of((base + 2) / 6, y))
        } else {
            None
        }
    }
}

/// Screen positions of cells name their cells, and only they name a cell.
pub proof fn lemma_pixel_cell_inverse(x: int, y: int)
    requires
        valid_xy(x, y),
    ensures
        pixel_cell(pixel_x(x, y), pixel_y(y)) == Some(index_of(x, y)),
{
    assert((y * 4 + 6 - 6) % 4 == 0 && (y * 4 + 6 - 6) / 4 == y);
    let base = pixel_x(x, y) - 6 - (y % 3) * 4;
    if is_left_column(x) {
        assert(base == 6 * x);
        assert(base % 12 == 0 && base / 6 == x);
    } else {
        assert(base + 2 == 6 * x);
        assert((base + 2) % 12 == 6 && (base + 2) / 6 == x);
    }
}

/// A position that names a cell is that cell's screen position.
pub proof fn lemma_pixel_cell_sound(px: int, py: int)
    requires
        pixel_cell(px, py) is Some,
    ensures
        ({
            let i = pixel_cell(px, py)->0;
            &&& valid_index(i)
            &&& pixel_x(column_of(i), row_of(i)) == px
            &&& pixel_y(row_of(i)) == py
        }),
{
    let y = (py - 6) / 4;
    let base = px - 6 - (y % 3) * 4;
    if base >= 0 && base % 12 == 0 && base / 6 < 40 {
        lemma_index_of_coordinates(base / 6, y);
    } else {
        lemma_index_of_coordinates((base + 2) / 6, y);
    }
}

/// The cell whose screen position is `(px, py)`, if there is one.
pub fn pixel_to_index(px: u8, py: u8) -> (r: Option<usize>)
    ensures
        r is Some <==> pixel_cell(px as int, py as int) is Some,
        r is Some ==> r->0 as int == pixel_cell(px as int, py as int)->0,
{
    if py < 6 || (py - 6) % 4 != 0 || (py - 6) / 4 >= 60 {
        return None;
    }
    let y: u8 = (py - 6) / 4;
    let base: i32 = px as i32 - 6 - ((y % ROW_TYPES) as i32) * 4;
    if base >= 0 && base % 12 == 0 && base / 6 < 40 {
        Some(xy_to_i((base / 6) as u8, y))
    } else if base + 2 >= 0 && (base + 2) % 12 == 6 && (base + 2) / 6 < 40 {
        Some(xy_to_i(((base + 2) / 6) as u8, y))
    } else {
        None
    }
}

} // verus!
