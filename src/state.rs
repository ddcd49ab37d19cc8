use vstd::prelude::*;
use crate::animation::{rate_for, distance, Animation};
use crate::board::{
    column_of, lemma_partner_involution, partner_cell, partner_of, row_of, valid_index,
    GRID_LENGTH, GRID_WIDTH,
};
use crate::cursor::Cursor;
use crate::geometry::{
    lemma_pixel_cell_inverse, lemma_pixel_cell_sound, pixel_cell, pixel_to_index, pixel_x, pixel_y,
    Dir,
};
use crate::half_hex::{colours_match, HalfHexSpec};

verus! {

/// The board: one optional half-hex per cell, row by row.
pub type Grid = Vec<Option<HalfHexSpec>>;

/// Directional and confirm presses of one frame.
#[derive(Clone, Copy, Debug, PartialEq, Eq, Structural)]
pub struct FrameInput {
    pub confirm: bool,
    pub up: bool,
    pub down: bool,
    pub left: bool,
    pub right: bool,
}

/// Everything the simulation holds between frames.
pub struct GameState {
    pub grid: Grid,
    pub cursor: Cursor,
    pub frame_counter: usize,
    pub animations: Vec<Animation>,
}

/// The simulation's state in mathematical terms.
pub struct Snapshot {
    pub grid: Seq<Option<HalfHexSpec>>,
    pub cursor: Cursor,
    pub animations: Seq<Animation>,
}

/// The descriptor that the initial board holds at index `i`.
pub open spec fn initial_spec(i: int) -> HalfHexSpec {
    HalfHexSpec { bits: (i % 256) as u8 }
}

/// The initial board: descriptors 0, 1, 2, ... in index order, wrapping at 256.
pub open spec fn initial_grid() -> Seq<Option<HalfHexSpec>> {
    Seq::new(GRID_LENGTH as nat, |i: int| Some(initial_spec(i)))
}

/// The cell where the cursor starts: column 1 of row 1.
pub open spec fn start_index() -> usize {
    41
}

/// The animation that carries `spec` from the screen position of cell `i` to
/// that of cell `t`.
pub open spec fn launched(i: int, t: int, spec: HalfHexSpec) -> Animation {
    let (x, y) = (pixel_x(column_of(i), row_of(i)), pixel_y(row_of(i)));
    let (tx, ty) = (pixel_x(column_of(t), row_of(t)), pixel_y(row_of(t)));
    Animation {
        x: x as u8,
        y: y as u8,
        target_x: tx as u8,
        target_y: ty as u8,
        x_rate: rate_for(distance(x, tx)) as u8,
        y_rate: rate_for(distance(y, ty)) as u8,
        spec,
    }
}

/// The board after `spec` is placed at cell `i`: when the other half of that
/// hexagon holds a descriptor of the same colours, both cells are cleared.
pub open spec fn placed(grid: Seq<Option<HalfHexSpec>>, i: int, spec: HalfHexSpec) -> Seq<
    Option<HalfHexSpec>,
> {
    let g = grid.update(i, Some(spec));
    let p = partner_of(i);
    match g[p] {
        Some(o) => if colours_match(o, spec) {
            g.update(p, None).update(i, None)
        } else {
            g
        },
        None => g,
    }
}

impl Snapshot {
    pub open spec fn wf(self) -> bool {
        &&& self.grid.len() == GRID_LENGTH
        &&& self.cursor.wf()
        &&& forall|k: int| 0 <= k < self.animations.len() ==> #[trigger] self.animations[k].wf()
        &&& forall|k: int|
            0 <= k < self.animations.len() ==> #[trigger] pixel_cell(
                self.animations[k].target_x as int,
                self.animations[k].target_y as int,
            ) is Some
    }

    /// The state after the animation at position `k` of the set advances one
    /// frame; when it arrives, its descriptor is placed in the cell at its
    /// screen position and it leaves the set, the last animation taking its
    /// position.
    pub open spec fn step_at(self, k: int) -> Snapshot {
        let a = self.animations[k].stepped();
        let anims = self.animations.update(k, a);
        if a.complete() {
            Snapshot {
                grid: match pixel_cell(a.x as int, a.y as int) {
                    Some(i) => placed(self.grid, i, a.spec),
                    None => self.grid,
                },
                animations: anims.update(k, anims.last()).drop_last(),
                ..self
            }
        } else {
            Snapshot { animations: anims, ..self }
        }
    }

    /// The state after the animations at positions `k - 1` down to 0 advance.
    pub open spec fn advanced_from(self, k: nat) -> Snapshot
        decreases k,
    {
        if k == 0 {
            self
        } else {
            self.step_at(k - 1).advanced_from((k - 1) as nat)
        }
    }

    /// The state after every animation advances one frame, last first.
    pub open spec fn advanced(self) -> Snapshot {
        self.advanced_from(self.animations.len())
    }

    /// The state after a confirm press. Without a selection, an occupied cursor
    /// cell becomes the anchor and drag position of a new selection. With one,
    /// when both cells are occupied, both are cleared, an animation carries
    /// each descriptor to the other cell, and the cursor is left at the drag
    /// position without a selection. Anything else changes nothing.
    pub open spec fn confirmed(self) -> Snapshot {
        match self.cursor {
            Cursor::Unselected(c) => if self.grid[c as int] is Some {
                Snapshot { cursor: Cursor::Selected(c, c), ..self }
            } else {
                self
            },
            Cursor::Selected(a, d) => if self.grid[a as int] is Some && self.grid[d as int] is Some {
                Snapshot {
                    grid: self.grid.update(a as int, None).update(d as int, None),
                    cursor: Cursor::Unselected(d),
                    animations: self.animations.push(
                        launched(a as int, d as int, self.grid[a as int]->0),
                    ).push(launched(d as int, a as int, self.grid[d as int]->0)),
                }
            } else {
                self
            },
        }
    }

    /// The state after one press of direction `dir`.
    pub open spec fn moved(self, dir: Dir) -> Snapshot {
        Snapshot { cursor: self.cursor.after_move(dir), ..self }
    }

    /// The state after one frame's update: animations advance, then the
    /// confirm press, then the up, down, left and right presses, in that order.
    pub open spec fn updated(self, input: FrameInput) -> Snapshot {
        let s0 = self.advanced();
        let s1 = if input.confirm {
            s0.confirmed()
        } else {
            s0
        };
        let s2 = if input.up {
            s1.moved(Dir::Up)
        } else {
            s1
        };
        let s3 = if input.down {
            s2.moved(Dir::Down)
        } else {
            s2
        };
        let s4 = if input.left {
            s3.moved(Dir::Left)
        } else {
            s3
        };
        if input.right {
            s4.moved(Dir::Right)
        } else {
            s4
        }
    }
}

impl View for GameState {
    type V = Snapshot;

    open spec fn view(&self) -> Snapshot {
        Snapshot { grid: self.grid@, cursor: self.cursor, animations: self.animations@ }
    }
}

/// Advancing one animation keeps the state well formed.
proof fn lemma_step_at_wf(s: Snapshot, k: int)
    requires
        s.wf(),
        0 <= k < s.animations.len(),
    ensures
        s.step_at(k).wf(),
        s.step_at(k).animations.len() >= k,
{
    let a = s.animations[k].stepped();
    crate::animation::lemma_approach_progress(s.animations[k]);
    assert(pixel_cell(s.animations[k].target_x as int, s.animations[k].target_y as int) is Some);
    lemma_pixel_cell_sound(a.target_x as int, a.target_y as int);
    lemma_partner_involution(pixel_cell(a.target_x as int, a.target_y as int)->0);
    let t = s.step_at(k);
    assert forall|j: int| 0 <= j < t.animations.len() implies #[trigger] t.animations[j].wf()
        && pixel_cell(t.animations[j].target_x as int, t.animations[j].target_y as int) is Some by {
        if a.complete() {
            if j == k {
                assert(t.animations[j] == s.animations[s.animations.len() - 1]);
            } else {
                assert(t.animations[j] == s.animations[j]);
            }
        } else {
            if j != k {
                assert(t.animations[j] == s.animations[j]);
            }
        }
    }
}

/// A board holding descriptors 0, 1, 2, ... in index order, wrapping at 256.
pub fn new_grid() -> (r: Grid)
    ensures
        r@ == initial_grid(),
{
    let mut grid: Grid = Vec::with_capacity(GRID_LENGTH);
    let mut c: u8 = 0;
    let mut i: usize = 0;
    while i < GRID_LENGTH
        invariant
            i <= GRID_LENGTH,
            grid@.len() == i,
            c as int == i % 256,
            forall|j: int| 0 <= j < i ==> #[trigger] grid@[j] == Some(initial_spec(j)),
        decreases GRID_LENGTH - i,
    {
        grid.push(Some(HalfHexSpec { bits: c }));
        c = c.wrapping_add(1);
        i = i + 1;
    }
    assert(grid@ =~= initial_grid());
    grid
}

/// Places `spec` at cell `index` and clears the hexagon when its other half
/// holds a descriptor of the same colours.
pub fn place_half_hex(grid: &mut Grid, index: usize, spec: HalfHexSpec)
    requires
        old(grid)@.len() == GRID_LENGTH,
        valid_index(index as int),
    ensures
        final(grid)@ == placed(old(grid)@, index as int, spec),
{
    grid[index] = Some(spec);
    let other_index = partner_cell(index);
    let resolved = match grid[other_index] {
        Some(other) => other.matches(&spec),
        None => false,
    };
    if resolved {
        grid[other_index] = None;
        grid[index] = None;
    }
}

impl GameState {
    /// The aggregate's invariant.
    pub open spec fn wf(&self) -> bool {
        self@.wf()
    }

    /// A fresh game: the initial board, the cursor at column 1 of row 1, no
    /// animation. The seed is not used yet: the board does not depend on it.
    pub fn new(_seed: [u8; 16]) -> (r: GameState)
        ensures
            r.wf(),
            r@.grid == initial_grid(),
            r.cursor == Cursor::Unselected(start_index()),
            r@.animations.len() == 0,
            r.frame_counter == 0,
    {
        let grid: Grid = new_grid();

        GameState {
            grid,
            cursor: Cursor::Unselected(GRID_WIDTH as usize + 1),
            frame_counter: 0,
            animations: Vec::with_capacity(8),
        }
    }

    /// Whether the state satisfies its invariant: a full board, a cursor on
    /// the board, and every animation bound for the screen position of a cell,
    /// with rates from 1 to 127.
    pub fn is_consistent(&self) -> (r: bool)
        ensures
            r == self.wf(),
    {
        if self.grid.len() != GRID_LENGTH {
            return false;
        }
        let cursor_ok = match self.cursor {
            Cursor::Unselected(c) => c < GRID_LENGTH,
            Cursor::Selected(a, d) => a < GRID_LENGTH && d < GRID_LENGTH,
        };
        if !cursor_ok {
            return false;
        }
        let mut k: usize = 0;
        while k < self.animations.len()
            invariant
                k <= self.animations.len(),
                forall|j: int| 0 <= j < k ==> #[trigger] self.animations@[j].wf(),
                forall|j: int|
                    0 <= j < k ==> #[trigger] pixel_cell(
                        self.animations@[j].target_x as int,
                        self.animations@[j].target_y as int,
                    ) is Some,
            decreases self.animations.len() - k,
        {
            let a = self.animations[k];
            if !(1 <= a.x_rate && a.x_rate <= 127 && 1 <= a.y_rate && a.y_rate <= 127
                && pixel_to_index(a.target_x, a.target_y).is_some()) {
                assert(!self@.animations[k as int].wf() || pixel_cell(
                    self@.animations[k as int].target_x as int,
                    self@.animations[k as int].target_y as int,
                ) is None);
                return false;
            }
            k = k + 1;
        }
        true
    }

    /// Advances every animation one frame, last first, placing the descriptor
    /// of each that arrives and removing it from the set.
    pub fn advance_animations(&mut self)
        requires
            old(self).wf(),
        ensures
            final(self).wf(),
            final(self)@ == old(self)@.advanced(),
            final(self).frame_counter == old(self).frame_counter,
    {
        let ghost start = self@;
        let mut k: usize = self.animations.len();
        while k > 0
            invariant
                self.wf(),
                k <= self.animations.len(),
                self@.advanced_from(k as nat) == start.advanced(),
                self.frame_counter == old(self).frame_counter,
            decreases k,
        {
            k = k - 1;
            let ghost prev = self@;
            proof {
                lemma_step_at_wf(prev, k as int);
            }
            let mut animation = self.animations[k];
            animation.approach_target();
            self.animations[k] = animation;
            if animation.is_complete() {
                if let Some(index) = pixel_to_index(animation.x, animation.y) {
                    proof {
                        lemma_pixel_cell_sound(animation.x as int, animation.y as int);
                    }
                    place_half_hex(&mut self.grid, index, animation.spec);
                }
                self.animations.swap_remove(k);
            }
            assert(self@.animations =~= prev.step_at(k as int).animations);
            assert(self@ == prev.step_at(k as int));
        }
    }

    /// Handles a confirm press: selects the cursor cell, or starts the swap of
    /// the anchor and drag cells.
    pub fn confirm(&mut self)
        requires
            old(self).wf(),
        ensures
            final(self).wf(),
            final(self)@ == old(self)@.confirmed(),
            final(self).frame_counter == old(self).frame_counter,
    {
        match self.cursor {
            Cursor::Unselected(c) => {
                if self.grid[c].is_some() {
                    self.cursor = Cursor::Selected(c, c);
                }
            },
            Cursor::Selected(c1, c2) => {
                if let (Some(h1), Some(h2)) = (self.grid[c1], self.grid[c2]) {
                    proof {
                        crate::board::lemma_coordinates_of_index(c1 as int);
                        crate::board::lemma_coordinates_of_index(c2 as int);
                        lemma_pixel_cell_inverse(column_of(c1 as int), row_of(c1 as int));
                        lemma_pixel_cell_inverse(column_of(c2 as int), row_of(c2 as int));
                    }
                    self.grid[c1] = None;
                    self.grid[c2] = None;
                    self.animations.push(Animation::new(c1, c2, h1));
                    self.animations.push(Animation::new(c2, c1, h2));
                    self.cursor = Cursor::Unselected(c2);
                }
            },
        }
    }

    /// Handles one press of direction `dir`.
    pub fn move_cursor(&mut self, dir: Dir)
        requires
            old(self).wf(),
        ensures
            final(self).wf(),
            final(self)@ == old(self)@.moved(dir),
            final(self).frame_counter == old(self).frame_counter,
    {
        self.cursor = self.cursor.moved(dir);
    }

    /// One frame's update: animations advance and arrive, then the confirm
    /// press and the directional presses are handled.
    pub fn update(&mut self, input: FrameInput)
        requires
            old(self).wf(),
        ensures
            final(self).wf(),
            final(self)@ == old(self)@.updated(input),
            final(self).frame_counter == old(self).frame_counter,
    {
        self.advance_animations();
        if input.confirm {
            self.confirm();
        }
        if input.up {
            self.move_cursor(Dir::Up);
        }
        if input.down {
            self.move_cursor(Dir::Down);
        }
        if input.left {
            self.move_cursor(Dir::Left);
        }
        if input.right {
            self.move_cursor(Dir::Right);
        }
    }

    /// Counts the frame that was just drawn.
    pub fn next_frame(&mut self)
        requires
            old(self).wf(),
        ensures
            final(self).wf(),
            final(self)@ == old(self)@,
            final(self).frame_counter == vstd::wrapping::usize_specs::wrapping_add(
                old(self).frame_counter,
                1,
            ),
    {
        self.frame_counter = self.frame_counter.wrapping_add(1);
    }
}

/// The initial board holds descriptor `i mod 256` at every index `i`, so cells
/// 256 apart hold descriptors of the same colours.
pub proof fn lemma_initial_grid(i: int)
    requires
        valid_index(i),
    ensures
        initial_grid()[i] == Some(HalfHexSpec { bits: (i % 256) as u8 }),
        crate::half_hex::inside_of(initial_grid()[i]->0.bits) == i % 8,
        crate::half_hex::outline_of(initial_grid()[i]->0.bits) == (i / 16) % 8,
        valid_index(i + 256) ==> colours_match(initial_grid()[i]->0, initial_grid()[i + 256]->0),
{
    let g = initial_grid();
    assert(g[i] == Some(initial_spec(i)));
    crate::half_hex::lemma_colours_repeat(g[i]->0, i as nat);
    if valid_index(i + 256) {
        assert(g[i + 256] == Some(initial_spec(i + 256)));
        crate::half_hex::lemma_colours_repeat(g[i + 256]->0, (i + 256) as nat);
        assert((i + 256) % 8 == i % 8 && ((i + 256) / 16) % 8 == (i / 16) % 8)
            by (nonlinear_arith)
            requires
                i >= 0,
        {
            assert(i + 256 == 8 * 32 + i);
            assert((i + 256) / 16 == i / 16 + 16);
        }
    }
}

/// Confirming a selection whose anchor and drag cells are both occupied clears
/// both cells at once and adds exactly two animations: one from the anchor to
/// the drag cell carrying the anchor's descriptor, and its mirror.
pub proof fn lemma_swap_symmetry(s: Snapshot, a: usize, d: usize)
    requires
        s.wf(),
        s.cursor == Cursor::Selected(a, d),
        s.grid[a as int] is Some,
        s.grid[d as int] is Some,
    ensures
        ({
            let t = s.confirmed();
            let n = s.animations.len();
            &&& t.grid[a as int] is None
            &&& t.grid[d as int] is None
            &&& forall|j: int| 0 <= j < s.grid.len() && j != a && j != d ==> t.grid[j] == s.grid[j]
            &&& t.animations.len() == n + 2
            &&& t.animations.subrange(0, n as int) == s.animations
            &&& t.animations[n as int] == launched(a as int, d as int, s.grid[a as int]->0)
            &&& t.animations[n + 1int] == launched(d as int, a as int, s.grid[d as int]->0)
            &&& t.cursor == Cursor::Unselected(d)
        }),
{
    assert(s.confirmed().animations.subrange(0, s.animations.len() as int) =~= s.animations);
}

/// An animation that has not arrived leaves the board as it was; one that
/// arrives changes only its target cell and that cell's partner.
pub proof fn lemma_step_touches_target_only(s: Snapshot, k: int)
    requires
        s.wf(),
        0 <= k < s.animations.len(),
    ensures
        ({
            let a = s.animations[k].stepped();
            let i = pixel_cell(a.target_x as int, a.target_y as int)->0;
            &&& !a.complete() ==> s.step_at(k).grid == s.grid
            &&& forall|j: int|
                0 <= j < s.grid.len() && j != i && j != partner_of(i) ==> s.step_at(k).grid[j]
                    == s.grid[j]
        }),
{
    let a = s.animations[k].stepped();
    crate::animation::lemma_approach_progress(s.animations[k]);
    assert(pixel_cell(s.animations[k].target_x as int, s.animations[k].target_y as int) is Some);
    lemma_pixel_cell_sound(a.target_x as int, a.target_y as int);
    lemma_partner_involution(pixel_cell(a.target_x as int, a.target_y as int)->0);
}

/// Two half-hexes placed one after the other into the two empty halves of one
/// hexagon: with the same colours both cells end empty, otherwise each keeps
/// its descriptor.
pub proof fn lemma_pair_resolution(
    g: Seq<Option<HalfHexSpec>>,
    i: int,
    first: HalfHexSpec,
    second: HalfHexSpec,
)
    requires
        g.len() == GRID_LENGTH,
        valid_index(i),
        g[i] is None,
        g[partner_of(i)] is None,
    ensures
        ({
            let p = partner_of(i);
            let g2 = placed(placed(g, i, first), p, second);
            &&& colours_match(first, second) ==> g2[i] is None && g2[p] is None
            &&& !colours_match(first, second) ==> g2[i] == Some(first) && g2[p] == Some(second)
            &&& forall|j: int| 0 <= j < g.len() && j != i && j != p ==> g2[j] == g[j]
        }),
{
    lemma_partner_involution(i);
    let p = partner_of(i);
    let g1 = placed(g, i, first);
    assert(g1 == g.update(i, Some(first)));
    if colours_match(first, second) {
        assert(colours_match(second, first));
    } else {
        assert(!colours_match(first, second));
        assert(!colours_match(second, first));
    }
}

/// Whether animation `a` is bound for cell `c`.
pub open spec fn bound_for(a: Animation, c: int) -> bool {
    pixel_cell(a.target_x as int, a.target_y as int) == Some(c)
}

/// What one animation's step does: positions below `k` keep their animations,
/// a step that does not arrive leaves the board as it was, and one that arrives
/// places its descriptor in the cell it is bound for.
proof fn lemma_step_at_effect(s: Snapshot, k: int)
    requires
        s.wf(),
        0 <= k < s.animations.len(),
    ensures
        s.step_at(k).wf(),
        s.step_at(k).animations.len() >= k,
        forall|j: int| 0 <= j < k ==> s.step_at(k).animations[j] == s.animations[j],
        !s.animations[k].stepped().complete() ==> s.step_at(k).grid == s.grid,
        s.animations[k].stepped().complete() ==> s.step_at(k).grid == placed(
            s.grid,
            pixel_cell(s.animations[k].target_x as int, s.animations[k].target_y as int)->0,
            s.animations[k].spec,
        ),
        valid_index(
            pixel_cell(s.animations[k].target_x as int, s.animations[k].target_y as int)->0,
        ),
{
    lemma_step_at_wf(s, k);
    crate::animation::lemma_approach_progress(s.animations[k]);
    assert(pixel_cell(s.animations[k].target_x as int, s.animations[k].target_y as int) is Some);
    lemma_pixel_cell_sound(s.animations[k].target_x as int, s.animations[k].target_y as int);
}

/// Placing a descriptor changes no cell but the one it goes to and its partner.
proof fn lemma_placed_elsewhere(g: Seq<Option<HalfHexSpec>>, i: int, spec: HalfHexSpec, c: int)
    requires
        g.len() == GRID_LENGTH,
        valid_index(i),
        0 <= c < g.len(),
        c != i,
        c != partner_of(i),
    ensures
        placed(g, i, spec)[c] == g[c],
        placed(g, i, spec).len() == g.len(),
{
    lemma_partner_involution(i);
}

/// A cell and its partner keep their contents through the steps of positions
/// below `k` when no animation there is bound for either of them.
proof fn lemma_pair_untouched(s: Snapshot, k: nat, c: int)
    requires
        s.wf(),
        k <= s.animations.len(),
        valid_index(c),
        forall|j: int|
            0 <= j < k ==> !bound_for(#[trigger] s.animations[j], c) && !bound_for(
                s.animations[j],
                partner_of(c),
            ),
    ensures
        s.advanced_from(k).grid[c] == s.grid[c],
        s.advanced_from(k).grid[partner_of(c)] == s.grid[partner_of(c)],
        s.advanced_from(k).grid.len() == s.grid.len(),
    decreases k,
{
    if k > 0 {
        let m = k - 1;
        lemma_step_at_effect(s, m);
        lemma_partner_involution(c);
        let a = s.animations[m];
        if a.stepped().complete() {
            let i = pixel_cell(a.target_x as int, a.target_y as int)->0;
            assert(i != c && i != partner_of(c));
            if partner_of(i) == c {
                lemma_partner_involution(i);
            }
            if partner_of(i) == partner_of(c) {
                lemma_partner_involution(i);
            }
            lemma_placed_elsewhere(s.grid, i, a.spec, c);
            lemma_placed_elsewhere(s.grid, i, a.spec, partner_of(c));
        }
        lemma_pair_untouched(s.step_at(m), m as nat, c);
    }
}

/// An empty cell stays empty through a frame unless an animation bound for it
/// arrives in that frame: each cell is refilled only by its own animation.
pub proof fn lemma_cell_waits_for_its_animation(s: Snapshot, t: int)
    requires
        s.wf(),
        valid_index(t),
        s.grid[t] is None,
        forall|j: int|
            0 <= j < s.animations.len() && bound_for(#[trigger] s.animations[j], t)
                ==> !s.animations[j].stepped().complete(),
    ensures
        s.advanced().grid[t] is None,
{
    lemma_cell_waits_from(s, s.animations.len(), t);
}

proof fn lemma_cell_waits_from(s: Snapshot, k: nat, t: int)
    requires
        s.wf(),
        k <= s.animations.len(),
        valid_index(t),
        s.grid[t] is None,
        forall|j: int|
            0 <= j < k && bound_for(#[trigger] s.animations[j], t)
                ==> !s.animations[j].stepped().complete(),
    ensures
        s.advanced_from(k).grid[t] is None,
    decreases k,
{
    if k > 0 {
        let m = k - 1;
        lemma_step_at_effect(s, m);
        let a = s.animations[m];
        if a.stepped().complete() {
            let i = pixel_cell(a.target_x as int, a.target_y as int)->0;
            assert(i != t);
            lemma_partner_involution(i);
        }
        let n = s.step_at(m);
        assert forall|j: int|
            0 <= j < m && bound_for(#[trigger] n.animations[j], t)
                implies !n.animations[j].stepped().complete() by {
            assert(n.animations[j] == s.animations[j]);
        }
        lemma_cell_waits_from(n, m as nat, t);
    }
}

/// When one half of a hexagon already holds `first` and the only animation
/// bound for the other half arrives in this frame carrying `second`, with no
/// animation bound for the first half: after the frame both cells are empty
/// when the colours match, and otherwise each holds its descriptor.
pub proof fn lemma_second_half_resolves(
    s: Snapshot,
    t: int,
    j0: int,
    first: HalfHexSpec,
    second: HalfHexSpec,
)
    requires
        s.wf(),
        valid_index(t),
        s.grid[t] == Some(first),
        s.grid[partner_of(t)] is None,
        0 <= j0 < s.animations.len(),
        bound_for(s.animations[j0], partner_of(t)),
        s.animations[j0].spec == second,
        s.animations[j0].stepped().complete(),
        forall|j: int|
            0 <= j < s.animations.len() ==> !bound_for(#[trigger] s.animations[j], t) && (j
                != j0 ==> !bound_for(s.animations[j], partner_of(t))),
    ensures
        colours_match(first, second) ==> s.advanced().grid[t] is None && s.advanced().grid[partner_of(t)] is None,
        !colours_match(first, second) ==> s.advanced().grid[t] == Some(first) && s.advanced().grid[partner_of(t)] == Some(second),
{
    lemma_second_half_from(s, s.animations.len(), t, j0, first, second);
}

proof fn lemma_second_half_from(
    s: Snapshot,
    k: nat,
    t: int,
    j0: int,
    first: HalfHexSpec,
    second: HalfHexSpec,
)
    requires
        s.wf(),
        k <= s.animations.len(),
        valid_index(t),
        s.grid[t] == Some(first),
        s.grid[partner_of(t)] is None,
        0 <= j0 < k,
        bound_for(s.animations[j0], partner_of(t)),
        s.animations[j0].spec == second,
        s.animations[j0].stepped().complete(),
        forall|j: int|
            0 <= j < k ==> !bound_for(#[trigger] s.animations[j], t) && (j != j0 ==> !bound_for(
                s.animations[j],
                partner_of(t),
            )),
    ensures
        colours_match(first, second) ==> s.advanced_from(k).grid[t] is None && s.advanced_from(
            k,
        ).grid[partner_of(t)] is None,
        !colours_match(first, second) ==> s.advanced_from(k).grid[t] == Some(first)
            && s.advanced_from(k).grid[partner_of(t)] == Some(second),
    decreases k,
{
    let m = (k - 1) as int;
    let p = partner_of(t);
    lemma_partner_involution(t);
    lemma_step_at_effect(s, m);
    let n = s.step_at(m);
    let a = s.animations[m];
    if m == j0 {
        lemma_pair_resolution_placed(s.grid, t, first, second);
        assert forall|j: int|
            0 <= j < m implies !bound_for(#[trigger] n.animations[j], t) && !bound_for(
                n.animations[j],
                partner_of(t),
            ) by {
            assert(n.animations[j] == s.animations[j]);
        }
        lemma_pair_untouched(n, m as nat, t);
    } else {
        if a.stepped().complete() {
            let i = pixel_cell(a.target_x as int, a.target_y as int)->0;
            assert(i != t && i != p);
            lemma_partner_involution(i);
            lemma_placed_elsewhere(s.grid, i, a.spec, t);
            lemma_placed_elsewhere(s.grid, i, a.spec, p);
        }
        assert(n.animations[j0] == s.animations[j0]);
        assert forall|j: int|
            0 <= j < m implies !bound_for(#[trigger] n.animations[j], t) && (j != j0
                ==> !bound_for(n.animations[j], partner_of(t))) by {
            assert(n.animations[j] == s.animations[j]);
        }
        lemma_second_half_from(n, m as nat, t, j0, first, second);
    }
}

/// Placing `second` into the empty partner of a cell holding `first` clears
/// both when the colours match and keeps both otherwise.
proof fn lemma_pair_resolution_placed(
    g: Seq<Option<HalfHexSpec>>,
    t: int,
    first: HalfHexSpec,
    second: HalfHexSpec,
)
    requires
        g.len() == GRID_LENGTH,
        valid_index(t),
        g[t] == Some(first),
    ensures
        ({
            let p = partner_of(t);
            let g2 = placed(g, p, second);
            &&& colours_match(first, second) ==> g2[t] is None && g2[p] is None
            &&& !colours_match(first, second) ==> g2[t] == Some(first) && g2[p] == Some(second)
        }),
{
    lemma_partner_involution(t);
    if colours_match(first, second) {
        assert(colours_match(second, first));
    } else {
        assert(!colours_match(second, first));
    }
}

/// When the only animations bound for the two empty halves of a hexagon both
/// arrive in the same frame, carrying `first` into cell `t` and `second` into
/// its partner: after the frame both cells are empty when the colours match,
/// and otherwise each holds the descriptor carried into it.
pub proof fn lemma_both_halves_resolve(
    s: Snapshot,
    t: int,
    ja: int,
    jb: int,
    first: HalfHexSpec,
    second: HalfHexSpec,
)
    requires
        s.wf(),
        valid_index(t),
        s.grid[t] is None,
        s.grid[partner_of(t)] is None,
        0 <= ja < s.animations.len(),
        0 <= jb < s.animations.len(),
        bound_for(s.animations[ja], t),
        bound_for(s.animations[jb], partner_of(t)),
        s.animations[ja].spec == first,
        s.animations[jb].spec == second,
        s.animations[ja].stepped().complete(),
        s.animations[jb].stepped().complete(),
        forall|j: int|
            0 <= j < s.animations.len() ==> (j != ja ==> !bound_for(#[trigger] s.animations[j], t))
                && (j != jb ==> !bound_for(s.animations[j], partner_of(t))),
    ensures
        colours_match(first, second) ==> s.advanced().grid[t] is None && s.advanced().grid[partner_of(t)] is None,
        !colours_match(first, second) ==> s.advanced().grid[t] == Some(first) && s.advanced().grid[partner_of(t)] == Some(second),
{
    lemma_partner_involution(t);
    lemma_both_halves_from(s, s.animations.len(), t, ja, jb, first, second);
}

proof fn lemma_both_halves_from(
    s: Snapshot,
    k: nat,
    t: int,
    ja: int,
    jb: int,
    first: HalfHexSpec,
    second: HalfHexSpec,
)
    requires
        s.wf(),
        k <= s.animations.len(),
        valid_index(t),
        s.grid[t] is None,
        s.grid[partner_of(t)] is None,
        0 <= ja < k,
        0 <= jb < k,
        bound_for(s.animations[ja], t),
        bound_for(s.animations[jb], partner_of(t)),
        s.animations[ja].spec == first,
        s.animations[jb].spec == second,
        s.animations[ja].stepped().complete(),
        s.animations[jb].stepped().complete(),
        forall|j: int|
            0 <= j < k ==> (j != ja ==> !bound_for(#[trigger] s.animations[j], t)) && (j != jb
                ==> !bound_for(s.animations[j], partner_of(t))),
    ensures
        colours_match(first, second) ==> s.advanced_from(k).grid[t] is None && s.advanced_from(
            k,
        ).grid[partner_of(t)] is None,
        !colours_match(first, second) ==> s.advanced_from(k).grid[t] == Some(first)
            && s.advanced_from(k).grid[partner_of(t)] == Some(second),
    decreases k,
{
    let m = (k - 1) as int;
    let p = partner_of(t);
    lemma_partner_involution(t);
    lemma_partner_involution(p);
    assert(ja != jb);
    lemma_step_at_effect(s, m);
    let n = s.step_at(m);
    let a = s.animations[m];
    assert forall|j: int| 0 <= j < m implies #[trigger] n.animations[j] == s.animations[j] by {}
    if m == ja {
        assert(n.grid[t] == Some(first) && n.grid[p] is None);
        assert(n.animations[jb] == s.animations[jb]);
        lemma_second_half_from(n, m as nat, t, jb, first, second);
    } else if m == jb {
        assert(n.grid[p] == Some(second) && n.grid[t] is None);
        assert(n.animations[ja] == s.animations[ja]);
        assert(colours_match(first, second) == colours_match(second, first));
        lemma_second_half_from(n, m as nat, p, ja, second, first);
    } else {
        if a.stepped().complete() {
            let i = pixel_cell(a.target_x as int, a.target_y as int)->0;
            assert(i != t && i != p);
            lemma_partner_involution(i);
            lemma_placed_elsewhere(s.grid, i, a.spec, t);
            lemma_placed_elsewhere(s.grid, i, a.spec, p);
        }
        assert(n.animations[ja] == s.animations[ja]);
        assert(n.animations[jb] == s.animations[jb]);
        lemma_both_halves_from(n, m as nat, t, ja, jb, first, second);
    }
}

} // verus!
