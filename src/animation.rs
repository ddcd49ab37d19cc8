use vstd::prelude::*;
use crate::board::{column_of, i_to_xy, row_of, valid_index};
use crate::geometry::{p_xy, pixel_x, pixel_y};
use crate::half_hex::HalfHexSpec;

verus! {

/// One half-hex in flight from its source cell to its target cell. Positions are
/// screen positions of the board's layout, so a diagonal trip animates along a
/// straight line; each axis moves by at most its rate per frame.
#[derive(Clone, Copy, Debug, PartialEq, Eq, Structural)]
pub struct Animation {
    pub x: u8,
    pub y: u8,
    pub target_x: u8,
    pub target_y: u8,
    pub x_rate: u8,
    pub y_rate: u8,
    pub spec: HalfHexSpec,
}

/// Frames an animation is meant to take, whatever the distance.
const DELAY_FACTOR: u8 = 16;

/// Distance between two positions on one axis.
pub open spec fn distance(a: int, b: int) -> int {
    if a >= b {
        a - b
    } else {
        b - a
    }
}

/// Per-frame rate for an axis distance: a sixteenth of it, at least one.
pub open spec fn rate_for(dist: int) -> int {
    if dist / 16 >= 1 {
        dist / 16
    } else {
        1
    }
}

/// One frame's move from `c` towards `t` at `rate`: by `rate`, or by what is
/// left when that is less.
pub open spec fn approach(c: int, t: int, rate: int) -> int {
    if c < t {
        if t - c < rate {
            t
        } else {
            c + rate
        }
    } else if c > t {
        if c - t < rate {
            t
        } else {
            c - rate
        }
    } else {
        c
    }
}

impl Animation {
    /// Both rates are at least one, and small enough to be a signed step.
    pub open spec fn wf(self) -> bool {
        &&& 1 <= self.x_rate <= 127
        &&& 1 <= self.y_rate <= 127
    }

    /// Both axes have reached the target.
    pub open spec fn complete(self) -> bool {
        self.x == self.target_x && self.y == self.target_y
    }

    /// The animation one frame later.
    pub open spec fn stepped(self) -> Animation {
        Animation {
            x: approach(self.x as int, self.target_x as int, self.x_rate as int) as u8,
            y: approach(self.y as int, self.target_y as int, self.y_rate as int) as u8,
            ..self
        }
    }

    /// The animation `n` frames later.
    pub open spec fn stepped_by(self, n: nat) -> Animation
        decreases n,
    {
        if n == 0 {
            self
        } else {
            self.stepped().stepped_by((n - 1) as nat)
        }
    }

    /// The larger of the two axis distances still to cover.
    pub open spec fn remaining(self) -> int {
        let dx = distance(self.x as int, self.target_x as int);
        let dy = distance(self.y as int, self.target_y as int);
        if dx >= dy {
            dx
        } else {
            dy
        }
    }

    /// An animation carrying `spec` from the screen position of cell `i` to
    /// that of cell `target_i`; each axis gets the rate that makes the trip take
    /// about sixteen frames.
    pub fn new(i: usize, target_i: usize, spec: HalfHexSpec) -> (r: Animation)
        requires
            valid_index(i as int),
            valid_index(target_i as int),
        ensures
            r.x as int == pixel_x(column_of(i as int), row_of(i as int)),
            r.y as int == pixel_y(row_of(i as int)),
            r.target_x as int == pixel_x(column_of(target_i as int), row_of(target_i as int)),
            r.target_y as int == pixel_y(row_of(target_i as int)),
            r.x_rate as int == rate_for(distance(r.x as int, r.target_x as int)),
            r.y_rate as int == rate_for(distance(r.y as int, r.target_y as int)),
            r.spec == spec,
            r.wf(),
    {
        let (column, row) = i_to_xy(i);
        let (x, y) = p_xy(column, row);
        let (target_column, target_row) = i_to_xy(target_i);
        let (target_x, target_y) = p_xy(target_column, target_row);

        let x_diff: u8 = if target_x == x {
            0
        } else if x > target_x {
            x - target_x
        } else {
            target_x - x
        };
        let y_diff: u8 = if target_y == y {
            0
        } else if y > target_y {
            y - target_y
        } else {
            target_y - y
        };
        let x_rate: u8 = if x_diff / DELAY_FACTOR >= 1 {
            x_diff / DELAY_FACTOR
        } else {
            1
        };
        let y_rate: u8 = if y_diff / DELAY_FACTOR >= 1 {
            y_diff / DELAY_FACTOR
        } else {
            1
        };

        Animation { x, y, x_rate, y_rate, target_x, target_y, spec }
    }

    /// Whether both axes have reached the target.
    pub fn is_complete(&self) -> (r: bool)
        ensures
            r == self.complete(),
    {
        self.x == self.target_x && self.y == self.target_y
    }

    /// Moves each axis one frame towards the target.
    pub fn approach_target(&mut self)
        requires
            old(self).wf(),
        ensures
            *final(self) == old(self).stepped(),
            final(self).wf(),
    {
        let (d_x, d_y) = self.get_delta();

        self.x = if d_x > 0 {
            self.x.saturating_add(d_x as u8)
        } else if d_x < 0 {
            self.x.saturating_sub((-d_x) as u8)
        } else {
            self.x
        };
        self.y = if d_y > 0 {
            self.y.saturating_add(d_y as u8)
        } else if d_y < 0 {
            self.y.saturating_sub((-d_y) as u8)
        } else {
            self.y
        };
    }

    /// Signed per-axis move of the next frame.
    pub fn get_delta(&self) -> (r: (i8, i8))
        requires
            self.wf(),
        ensures
            r.0 as int == approach(self.x as int, self.target_x as int, self.x_rate as int)
                - self.x,
            r.1 as int == approach(self.y as int, self.target_y as int, self.y_rate as int)
                - self.y,
    {
        (
            if self.target_x == self.x {
                0
            } else if self.x > self.target_x {
                let x_diff = self.x - self.target_x;
                let step = if x_diff < self.x_rate {
                    x_diff
                } else {
                    self.x_rate
                };
                -(step as i8)
            } else {
                let x_diff = self.target_x - self.x;
                let step = if x_diff < self.x_rate {
                    x_diff
                } else {
                    self.x_rate
                };
                step as i8
            },
            if self.target_y == self.y {
                0
            } else if self.y > self.target_y {
                let y_diff = self.y - self.target_y;
                let step = if y_diff < self.y_rate {
                    y_diff
                } else {
                    self.y_rate
                };
                -(step as i8)
            } else {
                let y_diff = self.target_y - self.y;
                let step = if y_diff < self.y_rate {
                    y_diff
                } else {
                    self.y_rate
                };
                step as i8
            },
        )
    }
}

/// One frame never moves an axis past its target, shrinks the distance on each
/// axis that has not arrived, and leaves an arrived axis where it is.
pub proof fn lemma_approach_progress(a: Animation)
    requires
        a.wf(),
    ensures
        a.stepped().wf(),
        a.stepped().target_x == a.target_x && a.stepped().target_y == a.target_y,
        a.stepped().spec == a.spec,
        a.x <= a.target_x ==> a.x <= a.stepped().x <= a.target_x,
        a.x >= a.target_x ==> a.target_x <= a.stepped().x <= a.x,
        a.y <= a.target_y ==> a.y <= a.stepped().y <= a.target_y,
        a.y >= a.target_y ==> a.target_y <= a.stepped().y <= a.y,
        a.x != a.target_x ==> distance(a.stepped().x as int, a.target_x as int) < distance(
            a.x as int,
            a.target_x as int,
        ),
        a.y != a.target_y ==> distance(a.stepped().y as int, a.target_y as int) < distance(
            a.y as int,
            a.target_y as int,
        ),
        a.complete() ==> a.stepped() == a,
        !a.complete() ==> a.stepped().remaining() < a.remaining(),
{
}

/// Every animation is complete after as many frames as its larger axis
/// distance, and stays complete from then on.
pub proof fn lemma_completes_within(a: Animation, n: nat)
    requires
        a.wf(),
        n >= a.remaining(),
    ensures
        a.stepped_by(n).complete(),
        a.stepped_by(n).wf(),
        a.stepped_by(n).spec == a.spec,
        a.stepped_by(n).target_x == a.target_x,
        a.stepped_by(n).target_y == a.target_y,
    decreases n,
{
    if n > 0 {
        lemma_approach_progress(a);
        lemma_completes_within(a.stepped(), (n - 1) as nat);
    }
}

} // verus!
