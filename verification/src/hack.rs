use vstd::prelude::*;
use crate::pipe_puzzle::GridPos;

verus! {

/// Side of the square hacking grid.
pub const HACK_GRID_SIZE: usize = 5;
/// Cells of the hacking grid.
pub const HACK_CELLS: usize = 25;

/// How a hacking button is drawn.
#[derive(Clone, Copy, Debug, PartialEq, Eq, Structural)]
pub enum HackButtonState {
    Disabled,
    Enabled,
    Active,
    SuperActive,
}

/// A button of the hacking grid: its look and the symbol it carries.
#[derive(Clone, Copy, Debug, PartialEq, Eq, Structural)]
pub struct HackButton {
    pub state: HackButtonState,
    pub index: usize,
}

/// Frame of the button sprite sheet for a button in `state` carrying symbol `index`.
pub open spec fn button_frame(state: HackButtonState, index: int, hovered: bool, pressed: bool) -> int {
    match state {
        HackButtonState::Disabled => if pressed { 18int } else { 0int },
        HackButtonState::Enabled => index + 1 + if pressed { 18int } else { 0int },
        HackButtonState::Active => if hovered && !pressed {
            index + 1 + 12
        } else {
            index + 1 + 6 + if pressed { 24int } else { 0int }
        },
        HackButtonState::SuperActive => index + 1 + 12 + if pressed { 18int } else { 0int },
    }
}

impl HackButton {
    /// The sprite frame for this button, hovered and/or pressed.
    pub fn get_idx(&self, hovered: bool, pressed: bool) -> (r: usize)
        requires
            self.index + 31 <= usize::MAX,
        ensures
            r == button_frame(self.state, self.index as int, hovered, pressed),
    {
        match self.state {
            HackButtonState::Disabled => { 0 + if pressed { 18 } else { 0 } },
            HackButtonState::Enabled => { self.index + 1 + if pressed { 18 } else { 0 } },
            HackButtonState::Active => {
                if hovered && !pressed {
                    return self.index + 1 + 12;
                }
                self.index + 1 + 6 + if pressed { 18 + 6 } else { 0 }
            },
            HackButtonState::SuperActive => { self.index + 1 + 12 + if pressed { 18 } else { 0 } },
        }
    }
}

/// The symbols' names as shown to the player.
pub const HACK_BUTTON_NAMES: [&'static str; 5] = ["AA", "5E", "2D", "3G", "4A"];

/// The hacking puzzle: a grid of symbols and the symbol sequence to enter.
#[derive(Default)]
pub struct HackGrid {
    pub is_loaded: bool,
    pub grid: Vec<usize>,
    pub win_seq: Vec<usize>,
}

/// Whether a row of symbols holds two different symbols.
pub open spec fn row_has_different(values: Seq<usize>) -> bool {
    exists|x: int| 0 <= x < values.len() && #[trigger] values[x] != values[0]
}

/// Whether a new hacking puzzle is to be built this frame: the malfunctions just
/// changed, a satellite hack is among them, and no puzzle is loaded.
pub fn needs_new_grid(malfunctions_changed: bool, hack_active: bool, is_loaded: bool) -> (r: bool)
    ensures
        r == (malfunctions_changed && hack_active && !is_loaded),
{
    malfunctions_changed && hack_active && !is_loaded
}

impl HackGrid {
    /// The button shown at column `x`, row `y` when the hacking display opens.
    /// While a hack is under way it carries that cell's symbol and is active in
    /// the top row, enabled below; otherwise it is disabled and carries symbol `0`.
    pub fn initial_button(&self, is_active: bool, x: usize, y: usize) -> (b: HackButton)
        requires
            x < HACK_GRID_SIZE,
            y < HACK_GRID_SIZE,
            is_active ==> x + y * HACK_GRID_SIZE < self.grid@.len(),
        ensures
            is_active ==> b == (HackButton {
                state: if y == 0 { HackButtonState::Active } else { HackButtonState::Enabled },
                index: self.grid@[x + y * HACK_GRID_SIZE],
            }),
            !is_active ==> b == (HackButton { state: HackButtonState::Disabled, index: 0 }),
    {
        if is_active {
            let state = if y == 0 { HackButtonState::Active } else { HackButtonState::Enabled };
            HackButton { state, index: self.grid[x + y * HACK_GRID_SIZE] }
        } else {
            HackButton { state: HackButtonState::Disabled, index: 0 }
        }
    }

    /// Starts building a puzzle: marks it loaded and empties every cell to symbol `0`.
    pub fn begin_load(&mut self)
        ensures
            final(self).is_loaded,
            final(self).grid@ == Seq::new(HACK_CELLS as nat, |i: int| 0usize),
            final(self).win_seq@ == old(self).win_seq@,
    {
        self.is_loaded = true;
        let mut grid: Vec<usize> = Vec::new();
        let mut i: usize = 0;
        while i < HACK_CELLS
            invariant
                i <= HACK_CELLS,
                grid@ == Seq::new(i as nat, |j: int| 0usize),
            decreases HACK_CELLS - i,
        {
            grid.push(0);
            i += 1;
        }
        self.grid = grid;
    }

    /// Writes the symbols of row `y`; returns whether the row holds two different
    /// symbols. A row without is drawn again by the caller.
    pub fn set_row(&mut self, y: usize, values: [usize; 5]) -> (different: bool)
        requires
            old(self).grid@.len() == HACK_CELLS,
            y < HACK_GRID_SIZE,
        ensures
            final(self).grid@ == Seq::new(HACK_CELLS as nat, |i: int|
                if y * HACK_GRID_SIZE <= i < (y + 1) * HACK_GRID_SIZE {
                    values@[i - y * HACK_GRID_SIZE]
                } else {
                    old(self).grid@[i]
                }),
            different == row_has_different(values@),
            final(self).is_loaded == old(self).is_loaded,
            final(self).win_seq@ == old(self).win_seq@,
    {
        let ghost g0 = self.grid@;
        let mut have_different = false;
        let mut x: usize = 0;
        while x < HACK_GRID_SIZE
            invariant
                x <= HACK_GRID_SIZE,
                y < HACK_GRID_SIZE,
                g0.len() == HACK_CELLS,
                self.grid@.len() == HACK_CELLS,
                x > 0 ==> self.grid@[(y * HACK_GRID_SIZE) as int] == values@[0],
                forall|i: int| 0 <= i < HACK_CELLS ==> #[trigger] self.grid@[i] == if y * HACK_GRID_SIZE <= i < y
                    * HACK_GRID_SIZE + x {
                    values@[i - y * HACK_GRID_SIZE]
                } else {
                    g0[i]
                },
                have_different == exists|j: int| 0 <= j < x && #[trigger] values@[j] != values@[0],
                self.is_loaded == old(self).is_loaded,
                self.win_seq@ == old(self).win_seq@,
            decreases HACK_GRID_SIZE - x,
        {
            let flat_id = x + y * HACK_GRID_SIZE;
            let index = values[x];
            self.grid.set(flat_id, index);
            if self.grid[y * HACK_GRID_SIZE] != index {
                have_different = true;
            }
            x += 1;
        }
        assert(self.grid@ =~= Seq::new(HACK_CELLS as nat, |i: int|
            if y * HACK_GRID_SIZE <= i < (y + 1) * HACK_GRID_SIZE {
                values@[i - y * HACK_GRID_SIZE]
            } else {
                g0[i]
            }));
        have_different
    }

    /// Sets the symbol sequence to enter: the symbol at column `hor1` of the top
    /// row, the one `vert1` rows below it, and the one `hor2` cells further on.
    pub fn set_win_seq(&mut self, hor1: usize, vert1: usize, hor2: usize)
        requires
            old(self).grid@.len() == HACK_CELLS,
            hor1 + hor2 + vert1 * HACK_GRID_SIZE < HACK_CELLS,
        ensures
            final(self).win_seq@ == seq![
                old(self).grid@[hor1 as int],
                old(self).grid@[hor1 + vert1 * HACK_GRID_SIZE],
                old(self).grid@[hor1 + hor2 + vert1 * HACK_GRID_SIZE],
            ],
            final(self).grid@ == old(self).grid@,
            final(self).is_loaded == old(self).is_loaded,
    {
        let a = self.grid[hor1];
        let b = self.grid[hor1 + vert1 * HACK_GRID_SIZE];
        let c = self.grid[hor1 + hor2 + vert1 * HACK_GRID_SIZE];
        self.win_seq = vec![a, b, c];
    }
}

/// The buttons picked so far in the hacking grid, in order, with their symbols.
pub struct HackSelection {
    pub positions: Vec<GridPos>,
    pub indices: Vec<usize>,
}

/// Whether a button at `pos` lights up: before any pick the top row, after one
/// pick that pick's column, after two picks the second pick's row. `None` once
/// three or more are picked.
pub open spec fn lights_up(picked: Seq<GridPos>, pos: GridPos) -> Option<bool> {
    if picked.len() == 0 {
        Some(pos.y == 0)
    } else if picked.len() == 1 {
        Some(pos.x == picked[0].x)
    } else if picked.len() == 2 {
        Some(pos.y == picked[1].y)
    } else {
        None
    }
}

/// Whether the button at `pos` may be picked next: like `lights_up`, but the
/// second pick may not be in the top row and the third may not be in the first
/// pick's column.
pub open spec fn pickable(picked: Seq<GridPos>, pos: GridPos) -> Option<bool> {
    if picked.len() == 0 {
        Some(pos.y == 0)
    } else if picked.len() == 1 {
        Some(pos.x == picked[0].x && pos.y != 0)
    } else if picked.len() == 2 {
        Some(pos.y == picked[1].y && pos.x != picked[0].x)
    } else {
        None
    }
}

/// A pick sequence made of pickable picks only.
pub open spec fn valid_picks(picked: Seq<GridPos>) -> bool {
    forall|i: int| 0 <= i < picked.len() ==> #[trigger] pickable(picked.take(i), picked[i]) == Some(true)
}

impl HackSelection {
    /// Nothing picked yet.
    pub fn new() -> (s: Self)
        ensures
            s.positions@.len() == 0,
            s.indices@.len() == 0,
    {
        HackSelection { positions: Vec::new(), indices: Vec::new() }
    }

    /// See `lights_up`.
    pub fn lights_up(&self, pos: GridPos) -> (r: Option<bool>)
        ensures
            r == lights_up(self.positions@, pos),
    {
        let n = self.positions.len();
        if n == 0 {
            Some(pos.y == 0)
        } else if n == 1 {
            Some(pos.x == self.positions[0].x)
        } else if n == 2 {
            Some(pos.y == self.positions[1].y)
        } else {
            None
        }
    }

    /// See `pickable`.
    pub fn pickable(&self, pos: GridPos) -> (r: Option<bool>)
        ensures
            r == pickable(self.positions@, pos),
    {
        let n = self.positions.len();
        if n == 0 {
            Some(pos.y == 0)
        } else if n == 1 {
            Some(pos.x == self.positions[0].x && pos.y != 0)
        } else if n == 2 {
            Some(pos.y == self.positions[1].y && pos.x != self.positions[0].x)
        } else {
            None
        }
    }

    /// Records a pick of the button at `pos` carrying symbol `index`.
    pub fn pick(&mut self, pos: GridPos, index: usize)
        ensures
            final(self).positions@ == old(self).positions@.push(pos),
            final(self).indices@ == old(self).indices@.push(index),
    {
        self.positions.push(pos);
        self.indices.push(index);
    }

    /// Whether the button at `pos` has been picked.
    pub fn is_picked(&self, pos: GridPos) -> (r: bool)
        ensures
            r == self.positions@.contains(pos),
    {
        let mut i: usize = 0;
        while i < self.positions.len()
            invariant
                i <= self.positions@.len(),
                forall|j: int| 0 <= j < i ==> self.positions@[j] != pos,
            decreases self.positions@.len() - i,
        {
            if self.positions[i] == pos {
                return true;
            }
            i += 1;
        }
        false
    }

    /// Once as many buttons are picked as the sequence is long, judges the entry
    /// and starts over: `Some(true)` when the picked symbols differ from
    /// `win_seq` (the hack failed), `Some(false)` when they match. `None`, with
    /// nothing changed, while picks are missing.
    pub fn finish(&mut self, win_seq: &Vec<usize>) -> (failed: Option<bool>)
        ensures
            old(self).positions@.len() == win_seq@.len() ==> {
                &&& failed == Some(old(self).indices@ != win_seq@)
                &&& final(self).positions@.len() == 0
                &&& final(self).indices@.len() == 0
            },
            old(self).positions@.len() != win_seq@.len() ==> failed is None && final(self).positions@
                == old(self).positions@ && final(self).indices@ == old(self).indices@,
    {
        if self.positions.len() != win_seq.len() {
            return None;
        }
        let same = same_symbols(&self.indices, win_seq);
        self.positions = Vec::new();
        self.indices = Vec::new();
        Some(!same)
    }
}

fn same_symbols(a: &Vec<usize>, b: &Vec<usize>) -> (r: bool)
    ensures
        r == (a@ == b@),
{
    if a.len() != b.len() {
        return false;
    }
    let mut i: usize = 0;
    while i < a.len()
        invariant
            i <= a.len(),
            a@.len() == b@.len(),
            forall|j: int| 0 <= j < i ==> a@[j] == b@[j],
        decreases a.len() - i,
    {
        if a[i] != b[i] {
            return false;
        }
        i += 1;
    }
    assert(a@ =~= b@);
    true
}

/// Picking only pickable buttons keeps the picks in the pattern the puzzle asks
/// for: first in the top row, second below it in the same column, third in the
/// second's row but another column.
pub proof fn lemma_pick_keeps_valid(picked: Seq<GridPos>, pos: GridPos)
    requires
        valid_picks(picked),
        pickable(picked, pos) == Some(true),
    ensures
        valid_picks(picked.push(pos)),
{
    let next = picked.push(pos);
    assert forall|i: int| 0 <= i < next.len() implies #[trigger] pickable(next.take(i), next[i]) == Some(true) by {
        if i < picked.len() {
            assert(next.take(i) =~= picked.take(i));
            assert(pickable(picked.take(i), picked[i]) == Some(true));
        } else {
            assert(next.take(i) =~= picked);
        }
    }
}

/// A full, valid pick sequence follows the shape of the puzzle.
pub proof fn lemma_valid_picks_shape(picked: Seq<GridPos>)
    requires
        valid_picks(picked),
        picked.len() == 3,
    ensures
        picked[0].y == 0,
        picked[1].x == picked[0].x && picked[1].y != 0,
        picked[2].y == picked[1].y && picked[2].x != picked[0].x,
{
    assert(pickable(picked.take(0), picked[0]) == Some(true));
    assert(pickable(picked.take(1), picked[1]) == Some(true));
    assert(pickable(picked.take(2), picked[2]) == Some(true));
    assert(picked.take(1)[0] == picked[0]);
    assert(picked.take(2)[0] == picked[0]);
    assert(picked.take(2)[1] == picked[1]);
}

/// After two picks the third may be any button of the second pick's row
/// outside the first pick's column, to the left or to the right of it, and no
/// other button.
pub proof fn lemma_third_pick_choices(picked: Seq<GridPos>, pos: GridPos)
    requires
        picked.len() == 2,
    ensures
        pickable(picked, pos) is Some,
        pos.y == picked[1].y && pos.x < picked[0].x ==> pickable(picked, pos) == Some(true),
        pos.y == picked[1].y && pos.x > picked[0].x ==> pickable(picked, pos) == Some(true),
        pos.y != picked[1].y ==> pickable(picked, pos) == Some(false),
        pos.x == picked[0].x ==> pickable(picked, pos) == Some(false),
{
}

/// Every sequence in the shape of the puzzle can be entered: a button of the
/// top row, then one below it in its column, then one in that row outside the
/// first column, each pick being pickable when it is made.
pub proof fn lemma_shaped_picks_valid(picked: Seq<GridPos>)
    requires
        picked.len() == 3,
        picked[0].y == 0,
        picked[1].x == picked[0].x,
        picked[1].y != 0,
        picked[2].y == picked[1].y,
        picked[2].x != picked[0].x,
    ensures
        valid_picks(picked),
{
    assert forall|i: int| 0 <= i < picked.len() implies #[trigger] pickable(picked.take(i), picked[i]) == Some(true) by {
        assert(picked.take(i).len() == i);
        if i >= 1 {
            assert(picked.take(i)[0] == picked[0]);
        }
        if i == 2 {
            assert(picked.take(i)[1] == picked[1]);
        }
    }
}

/// Only lit buttons can be picked: a pickable button always lights up, and a
/// lit button is refused only in the top row for the second pick and in the
/// first pick's column for the third.
pub proof fn lemma_pickable_lights_up(picked: Seq<GridPos>, pos: GridPos)
    ensures
        pickable(picked, pos) == Some(true) ==> lights_up(picked, pos) == Some(true),
        lights_up(picked, pos) == Some(true) && pickable(picked, pos) == Some(false) ==> (picked.len() == 1
            && pos.y == 0) || (picked.len() == 2 && pos.x == picked[0].x),
        picked.len() == 0 ==> pickable(picked, pos) == lights_up(picked, pos),
{
}

} // verus!
