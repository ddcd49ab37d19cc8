use vstd::prelude::*;
use crate::board::{column_of, i_to_xy, row_of, valid_index, GRID_LENGTH, GRID_WIDTH};
use crate::geometry::{get_movement_offset, neighbour_of, step_accepted, Dir};

verus! {

/// The selection cursor: one position with no selection, or a fixed anchor and
/// a movable drag position while a selection is held.
#[derive(Clone, Copy, Debug, PartialEq, Eq, Structural)]
pub enum Cursor {
    Unselected(usize),
    Selected(usize, usize),
}

impl Cursor {
    /// Every position of the cursor is a cell of the board.
    pub open spec fn wf(self) -> bool {
        match self {
            Cursor::Unselected(c) => valid_index(c as int),
            Cursor::Selected(a, d) => valid_index(a as int) && valid_index(d as int),
        }
    }

    /// The position that responds to movement input.
    pub open spec fn moving(self) -> usize {
        match self {
            Cursor::Unselected(c) => c,
            Cursor::Selected(_, d) => d,
        }
    }

    /// The cursor with its moving position replaced by `t`; an anchor stays.
    pub open spec fn with_moving(self, t: usize) -> Cursor {
        match self {
            Cursor::Unselected(_) => Cursor::Unselected(t),
            Cursor::Selected(a, _) => Cursor::Selected(a, t),
        }
    }

    /// The positions drawn as highlighted.
    pub open spec fn highlighted(self) -> Seq<usize> {
        match self {
            Cursor::Unselected(c) => seq![c],
            Cursor::Selected(a, d) => seq![a, d],
        }
    }

    /// The cursor after one press of direction `dir`: the moving position goes
    /// to its neighbour from the movement table when that step is accepted, and
    /// stays otherwise.
    pub open spec fn after_move(self, dir: Dir) -> Cursor {
        let m = self.moving() as int;
        if step_accepted(m, dir) {
            self.with_moving(neighbour_of(m, dir) as usize)
        } else {
            self
        }
    }

    /// Adds the signed offset `other` to the moving position, wrapping around
    /// the range of `usize`.
    pub fn wrapping_add(self, other: isize) -> (r: Cursor)
        ensures
            r == self.with_moving(
                vstd::wrapping::usize_specs::wrapping_add_signed(self.moving(), other),
            ),
    {
        match self {
            Cursor::Unselected(c) => Cursor::Unselected(c.wrapping_add_signed(other)),
            Cursor::Selected(c1, c2) => Cursor::Selected(c1, c2.wrapping_add_signed(other)),
        }
    }

    /// The position that responds to movement input: the only one when nothing
    /// is selected, the drag position otherwise.
    pub fn moving_index(&self) -> (r: usize)
        ensures
            r == self.moving(),
    {
        match *self {
            Cursor::Unselected(c) => c,
            Cursor::Selected(_, c2) => c2,
        }
    }

    /// The positions to highlight: one without a selection, anchor then drag
    /// with one.
    pub fn iter(&self) -> (r: Vec<usize>)
        ensures
            r@ == self.highlighted(),
    {
        match *self {
            Cursor::Unselected(c) => vec![c],
            Cursor::Selected(c1, c2) => vec![c1, c2],
        }
    }

    /// The cursor after one press of direction `dir`.
    pub fn moved(self, dir: Dir) -> (r: Cursor)
        requires
            self.wf(),
        ensures
            r == self.after_move(dir),
            r.wf(),
    {
        let cursor_num = self.moving_index();
        let (x, y) = i_to_xy(cursor_num);
        let offset: i8 = get_movement_offset(x, y, dir);
        let new_cursor = self.wrapping_add(offset as isize);
        let new_cursor_num = new_cursor.moving_index();
        proof {
            let t = neighbour_of(cursor_num as int, dir);
            assert(t == cursor_num + offset);
            assert(usize::MAX >= 0xffff_ffff);

            if t >= 0 {
                assert(new_cursor_num as int == t);
            } else {
                assert(new_cursor_num as int >= GRID_LENGTH);
            }
        }
        if new_cursor_num < GRID_LENGTH {
            let width = GRID_WIDTH as usize;
            let new_x = new_cursor_num % width;
            let looped = (x == 0 && new_x == width - 1) || (x as usize == width - 1 && new_x
                == 0);
            if !looped {
                return new_cursor;
            }
        }
        self
    }
}

/// Moving left from the first column, in a row whose class is not 2, or right
/// from the last column, in a row whose class is not 0, leaves the cursor where
/// it is, with or without a selection. (In the other row classes the table's
/// step from those columns is a genuine move to the next row.)
pub proof fn lemma_edge_moves_rejected(c: Cursor, dir: Dir)
    requires
        c.wf(),
        ({
            let m = c.moving() as int;
            ||| column_of(m) == 0 && dir == Dir::Left && row_of(m) % 3 != 2
            ||| column_of(m) == 39 && dir == Dir::Right && row_of(m) % 3 != 0
        }),
    ensures
        c.after_move(dir) == c,
{
    crate::board::lemma_coordinates_of_index(c.moving() as int);
    let m = c.moving() as int;
    let t = neighbour_of(m, dir);
    if valid_index(t) {
        crate::board::lemma_coordinates_of_index(t);
    }
}

/// A move changes only the moving position: the anchor of a selection stays.
pub proof fn lemma_move_keeps_anchor(c: Cursor, dir: Dir)
    requires
        c.wf(),
    ensures
        c.after_move(dir).wf(),
        match c {
            Cursor::Unselected(_) => c.after_move(dir) is Unselected,
            Cursor::Selected(a, _) => c.after_move(dir) matches Cursor::Selected(a2, _) && a2 == a,
        },
{
}

} // verus!
