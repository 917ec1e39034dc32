use vstd::prelude::*;

verus! {

/// Collision group of the player's body.
pub const PLAYER_CG: u32 = 0b0000_0000_0000_0001;
/// Collision group of the player's interaction sensor.
pub const PLAYER_SENSOR_CG: u32 = 0b0000_0000_0000_0010;
/// Collision group of interactable objects.
pub const INTERACTABLE_CG: u32 = 0b0000_0000_0000_0100;
/// Collision group of the station's structures.
pub const STRUCTURES_CG: u32 = 0b0000_0000_0000_1000;

/// The consoles the player can use.
#[derive(Clone, Copy, Debug, PartialEq, Eq, Hash, Structural)]
pub enum InteractionTypes {
    ChainReactionDisplay,
    WaveModulator,
    PipePuzzle,
    CollisionMinigame,
    WarningInterface,
    HackMinigame,
    WiresMinigame,
}

impl Default for InteractionTypes {
    fn default() -> (t: Self)
        ensures
            t == InteractionTypes::ChainReactionDisplay,
    {
        InteractionTypes::ChainReactionDisplay
    }
}

/// Which console, if any, the player is using.
#[derive(Clone, Copy, Debug, PartialEq, Eq, Structural)]
pub struct InInteractionArray {
    pub in_interaction: InteractionTypes,
    pub in_any_interaction: bool,
}

impl InInteractionArray {
    /// Not using any console; the chain reaction display is the one remembered.
    pub fn new() -> (a: Self)
        ensures
            a.in_interaction == InteractionTypes::ChainReactionDisplay,
            !a.in_any_interaction,
    {
        InInteractionArray { in_interaction: InteractionTypes::ChainReactionDisplay, in_any_interaction: false }
    }

    /// Handles the E key for this frame. While a console is in use, releasing
    /// E leaves it and the frame's interaction handling stops (`false`). Else,
    /// releasing E while a console is highlighted (`highlighted`, with its kind)
    /// starts using it; the frame goes on (`true`).
    pub fn e_key(&mut self, e_released: bool, highlighted: Option<InteractionTypes>) -> (go_on: bool)
        ensures
            go_on == !old(self).in_any_interaction,
            old(self).in_any_interaction ==> final(self).in_interaction == old(self).in_interaction
                && final(self).in_any_interaction == !e_released,
            !old(self).in_any_interaction ==> match (e_released, highlighted) {
                (true, Some(k)) => final(self).in_any_interaction && final(self).in_interaction == k,
                _ => *final(self) == *old(self),
            },
    {
        if self.in_any_interaction {
            if e_released {
                self.in_any_interaction = false;
            }
            return false;
        }
        if e_released {
            if let Some(k) = highlighted {
                self.in_any_interaction = true;
                self.in_interaction = k;
            }
        }
        true
    }
}

/// Sprite frame of a submit button: the pressed frame while it is pressed.
pub fn submit_button_frame(pressed: bool) -> (i: usize)
    ensures
        i == (if pressed { 1usize } else { 0usize }),
{
    let mut index: usize = 0;
    if pressed {
        index = 1;
    }
    index
}

/// The consoles in reach, which one is highlighted, and the key hint shown
/// over it (entities by their identifier bits).
pub struct ScrollSelector {
    pub current_selected: usize,
    pub current_displayed: Option<u64>,
    pub selection_options: Vec<u64>,
}

impl ScrollSelector {
    /// A hint is only shown over a console that is in reach.
    pub open spec fn wf(&self) -> bool {
        self.current_displayed is Some ==> self.current_selected < self.selection_options@.len()
    }

    /// Nothing in reach.
    pub fn new() -> (s: Self)
        ensures
            s.wf(),
            s.current_selected == 0,
            s.current_displayed is None,
            s.selection_options@.len() == 0,
    {
        ScrollSelector { current_selected: 0, current_displayed: None, selection_options: Vec::new() }
    }

    /// The console to use when E is released: the highlighted one, while its
    /// hint is shown.
    pub fn highlighted(&self) -> (e: Option<u64>)
        requires
            self.wf(),
        ensures
            e == (if self.current_displayed is Some {
                Some(self.selection_options@[self.current_selected as int])
            } else {
                None::<u64>
            }),
    {
        if self.current_displayed.is_some() {
            Some(self.selection_options[self.current_selected])
        } else {
            None
        }
    }

    /// Turns the mouse wheel: `down` when it turned backwards, else `steps`
    /// whole lines forwards. Backwards from the first console wraps to the
    /// last; otherwise the position moves back by `steps` (at most the number
    /// of consoles). Forwards it moves by `steps`, wrapping around. When the
    /// highlight moves, its hint is taken down: the hint's entity is returned.
    pub fn scroll(&mut self, down: bool, steps: usize) -> (removed: Option<u64>)
        requires
            old(self).wf(),
            !down ==> old(self).current_selected + steps <= usize::MAX,
            down && old(self).current_selected != 0 ==> (if steps < old(self).selection_options@.len() {
                steps as int
            } else {
                old(self).selection_options@.len() as int
            }) <= old(self).current_selected,
        ensures
            final(self).wf(),
            final(self).selection_options@ == old(self).selection_options@,
            ({
                let n = old(self).selection_options@.len() as int;
                let cur = old(self).current_selected as int;
                let new = if n == 0 {
                    cur
                } else if down {
                    if cur == 0 {
                        n - 1
                    } else {
                        (cur - (if steps < n { steps as int } else { n })) % n
                    }
                } else {
                    (cur + steps) % n
                };
                &&& final(self).current_selected == new
                &&& new != cur ==> final(self).current_displayed is None && removed
                    == old(self).current_displayed
                &&& new == cur ==> final(self).current_displayed == old(self).current_displayed
                    && removed is None
            }),
    {
        let n = self.selection_options.len();
        if n == 0 {
            return None;
        }
        let new: usize;
        if down {
            if self.current_selected == 0 {
                new = n - 1;
            } else {
                let back = if steps < n { steps } else { n };
                new = (self.current_selected - back) % n;
            }
        } else {
            new = (self.current_selected + steps) % n;
        }
        if new != self.current_selected {
            let removed = self.current_displayed;
            self.current_displayed = None;
            self.current_selected = new;
            removed
        } else {
            None
        }
    }

    /// A console came into reach: it is appended.
    pub fn enter_reach(&mut self, e: u64)
        requires
            old(self).wf(),
        ensures
            final(self).wf(),
            final(self).selection_options@ == old(self).selection_options@.push(e),
            final(self).current_selected == old(self).current_selected,
            final(self).current_displayed == old(self).current_displayed,
    {
        self.selection_options.push(e);
    }

    /// A console left reach: its first entry is removed, and if a hint was
    /// shown it is taken down (returned) and the highlight goes back to the
    /// first console. Nothing changes for a console that was not listed.
    pub fn leave_reach(&mut self, e: u64) -> (removed: Option<u64>)
        requires
            old(self).wf(),
        ensures
            final(self).wf(),
            !old(self).selection_options@.contains(e) ==> {
                &&& final(self).selection_options@ == old(self).selection_options@
                &&& final(self).current_selected == old(self).current_selected
                &&& final(self).current_displayed == old(self).current_displayed
                &&& removed is None
            },
            old(self).selection_options@.contains(e) ==> {
                &&& exists|i: int|
                    0 <= i < old(self).selection_options@.len() && old(self).selection_options@[i] == e
                        && (forall|j: int| 0 <= j < i ==> old(self).selection_options@[j] != e)
                        && final(self).selection_options@ == old(self).selection_options@.remove(i)
                &&& removed == old(self).current_displayed
                &&& final(self).current_displayed is None
                &&& old(self).current_displayed is Some ==> final(self).current_selected == 0
                &&& old(self).current_displayed is None ==> final(self).current_selected
                    == old(self).current_selected
            },
    {
        let mut i: usize = 0;
        while i < self.selection_options.len()
            invariant
                i <= self.selection_options@.len(),
                self.selection_options@ == old(self).selection_options@,
                self.current_selected == old(self).current_selected,
                self.current_displayed == old(self).current_displayed,
                forall|j: int| 0 <= j < i ==> self.selection_options@[j] != e,
            decreases self.selection_options@.len() - i,
        {
            if self.selection_options[i] == e {
                self.selection_options.remove(i);
                let removed = self.current_displayed;
                if removed.is_some() {
                    self.current_displayed = None;
                    self.current_selected = 0;
                }
                assert(old(self).selection_options@[i as int] == e);
                return removed;
            }
            i += 1;
        }
        None
    }

    /// The console over which a new key hint is to be shown: the highlighted
    /// one when no hint is shown yet and a console is in reach.
    pub fn hint_target(&self) -> (e: Option<u64>)
        requires
            self.current_displayed is None && self.selection_options@.len() > 0 ==> self.current_selected
                < self.selection_options@.len(),
        ensures
            e == (if self.current_displayed is None && self.selection_options@.len() > 0 {
                Some(self.selection_options@[self.current_selected as int])
            } else {
                None::<u64>
            }),
    {
        if self.current_displayed.is_none() && self.selection_options.len() > 0 {
            Some(self.selection_options[self.current_selected])
        } else {
            None
        }
    }

    /// Records the hint shown over the highlighted console.
    pub fn show_hint(&mut self, hint: u64)
        requires
            old(self).current_selected < old(self).selection_options@.len(),
        ensures
            final(self).wf(),
            final(self).current_displayed == Some(hint),
            final(self).current_selected == old(self).current_selected,
            final(self).selection_options@ == old(self).selection_options@,
    {
        self.current_displayed = Some(hint);
    }
}

} // verus!
