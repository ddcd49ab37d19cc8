use vstd::prelude::*;

verus! {

/// Number of columns of the board.
pub const GRID_WIDTH: u8 = 40;

/// Number of rows of the board.
pub const GRID_HEIGHT: u8 = 60;

/// Number of cells of the board.
pub const GRID_LENGTH: usize = 2400;

/// Rows repeat their horizontal stagger every this many rows.
pub const ROW_TYPES: u8 = 3;

/// `GRID_WIDTH` in specifications.
pub open spec fn width() -> int {
    40
}

/// `GRID_HEIGHT` in specifications.
pub open spec fn height() -> int {
    60
}

/// `GRID_LENGTH` in specifications.
pub open spec fn cell_count() -> int {
    2400
}

/// A coordinate pair that names a cell of the board.
pub open spec fn valid_xy(x: int, y: int) -> bool {
    0 <= x < width() && 0 <= y < height()
}

/// An index that names a cell of the board.
pub open spec fn valid_index(i: int) -> bool {
    0 <= i < cell_count()
}

/// Row-major index of the cell at column `x`, row `y`.
pub open spec fn index_of(x: int, y: int) -> int {
    y * width() + x
}

/// Column of the cell at index `i`.
pub open spec fn column_of(i: int) -> int {
    i % width()
}

/// Row of the cell at index `i`.
pub open spec fn row_of(i: int) -> int {
    i / width()
}

/// Even columns hold the left half of a hexagon, odd columns the right half.
pub open spec fn is_left_column(x: int) -> bool {
    x % 2 == 0
}

/// The other half of the hexagon that the cell at index `i` belongs to.
pub open spec fn partner_of(i: int) -> int {
    if is_left_column(column_of(i)) {
        i + 1
    } else {
        i - 1
    }
}

/// Column and row of the cell at index `i`.
pub fn i_to_xy(i: usize) -> (r: (u8, u8))
    requires
        valid_index(i as int),
    ensures
        r.0 as int == column_of(i as int),
        r.1 as int == row_of(i as int),
        valid_xy(r.0 as int, r.1 as int),
{
    proof {
        lemma_coordinates_of_index(i as int);
    }
    ((i % GRID_WIDTH as usize) as u8, (i / GRID_WIDTH as usize) as u8)
}

/// Index of the cell at column `x`, row `y`.
pub fn xy_to_i(x: u8, y: u8) -> (r: usize)
    requires
        valid_xy(x as int, y as int),
    ensures
        r as int == index_of(x as int, y as int),
        valid_index(r as int),
        column_of(r as int) == x as int,
        row_of(r as int) == y as int,
{
    proof {
        lemma_index_of_coordinates(x as int, y as int);
    }
    y as usize * GRID_WIDTH as usize + x as usize
}

/// Whether column `x` holds the left half of a hexagon.
pub fn on_left(x: u8) -> (r: bool)
    ensures
        r == is_left_column(x as int),
{
    x % 2 == 0
}

/// The other half of the hexagon that the cell at index `i` belongs to.
pub fn partner_cell(i: usize) -> (r: usize)
    requires
        valid_index(i as int),
    ensures
        r as int == partner_of(i as int),
        valid_index(r as int),
        partner_of(r as int) == i as int,
{
    proof {
        lemma_partner_involution(i as int);
    }
    if (i % GRID_WIDTH as usize) % 2 == 0 {
        i + 1
    } else {
        i - 1
    }
}

/// Going from a coordinate pair to its index and back gives the pair again.
pub proof fn lemma_index_of_coordinates(x: int, y: int)
    requires
        valid_xy(x, y),
    ensures
        valid_index(index_of(x, y)),
        column_of(index_of(x, y)) == x,
        row_of(index_of(x, y)) == y,
{
    assert(0 <= y * width() <= (height() - 1) * width()) by (nonlinear_arith)
        requires
            0 <= y < height(),
            width() == 40,
            height() == 60,
    ;
    assert((y * width() + x) % width() == x && (y * width() + x) / width() == y)
        by (nonlinear_arith)
        requires
            0 <= x < width(),
            width() == 40,
    ;
}

/// Going from an index to its coordinate pair and back gives the index again.
pub proof fn lemma_coordinates_of_index(i: int)
    requires
        valid_index(i),
    ensures
        valid_xy(column_of(i), row_of(i)),
        index_of(column_of(i), row_of(i)) == i,
{
}

/// The partner of a cell lies on the board, in the same row, and its partner is
/// the cell itself.
pub proof fn lemma_partner_involution(i: int)
    requires
        valid_index(i),
    ensures
        valid_index(partner_of(i)),
        row_of(partner_of(i)) == row_of(i),
        partner_of(partner_of(i)) == i,
        partner_of(i) != i,
{
    lemma_coordinates_of_index(i);
    let p = partner_of(i);
    let (x, y) = (column_of(i), row_of(i));
    if is_left_column(x) {
        assert(x + 1 < width());
        lemma_index_of_coordinates(x + 1, y);
    } else {
        lemma_index_of_coordinates(x - 1, y);
    }
}

} // verus!
