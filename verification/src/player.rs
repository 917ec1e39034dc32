use vstd::prelude::*;
use crate::animation::PlayerAnimationNode;

verus! {

/// What the player is doing; a ladder is named by its entity's identifier bits.
#[derive(Clone, Copy, Debug, PartialEq, Eq, Structural)]
pub enum PlayerMode {
    Regular,
    Dance,
    Climbing(u64),
    Spacewalk,
}

impl PlayerMode {
    /// On a ladder.
    pub fn is_climbing(&self) -> (b: bool)
        ensures
            b == (*self is Climbing),
    {
        matches!(self, PlayerMode::Climbing(_))
    }

    /// Floating free outside the station.
    pub fn is_spacewalking(&self) -> (b: bool)
        ensures
            b == (*self is Spacewalk),
    {
        matches!(self, PlayerMode::Spacewalk)
    }

    /// Dancing.
    pub fn is_dancing(&self) -> (b: bool)
        ensures
            b == (*self is Dance),
    {
        matches!(self, PlayerMode::Dance)
    }

    /// Walking or standing.
    pub fn is_regular(&self) -> (b: bool)
        ensures
            b == (*self is Regular),
    {
        matches!(self, PlayerMode::Regular)
    }
}

/// The spacewalk key (`pressed`) switches between spacewalking and walking.
pub fn toggle_spacewalk(mode: PlayerMode, pressed: bool) -> (m: PlayerMode)
    ensures
        m == toggle_spacewalk_spec(mode, pressed),
{
    if pressed {
        if mode.is_spacewalking() {
            PlayerMode::Regular
        } else {
            PlayerMode::Spacewalk
        }
    } else {
        mode
    }
}

/// The outcome of one frame of the player's mode.
#[derive(Clone, Copy, Debug, PartialEq, Eq, Structural)]
pub struct ModeStep {
    /// The mode after this frame.
    pub mode: PlayerMode,
    /// The clip this step asks for, if any.
    pub anim: Option<PlayerAnimationNode>,
    /// The player let go of a ladder: the rest of the frame's movement is skipped.
    pub left_ladder: bool,
}

/// The mode transition of one frame, given the pressed direction (`dir_x`,
/// `dir_y` in `-1 ..= 1`), whether the player stands on the floor, whether
/// enough time has passed since the last climb, the nearest ladder in reach
/// and whether the ladder being climbed is still in reach.
///
/// A dance stops (back to walking, idle clip) when a side is pressed or the
/// floor is lost. A climber lets go when the ladder is out of reach, or when
/// only a side is pressed; otherwise the climbing clip plays. A walker grabs
/// the nearest ladder when up or down is pressed and it may climb again. A
/// spacewalker floats.
pub open spec fn mode_step(
    mode: PlayerMode,
    dir_x: i8,
    dir_y: i8,
    on_floor: bool,
    climb_ready: bool,
    nearest_ladder: Option<u64>,
    ladder_in_reach: bool,
) -> ModeStep {
    match mode {
        PlayerMode::Dance => if dir_x != 0 || !on_floor {
            ModeStep { mode: PlayerMode::Regular, anim: Some(PlayerAnimationNode::Idle), left_ladder: false }
        } else {
            ModeStep { mode, anim: None, left_ladder: false }
        },
        PlayerMode::Climbing(l) => if !ladder_in_reach {
            ModeStep { mode: PlayerMode::Regular, anim: None, left_ladder: true }
        } else if dir_x != 0 && dir_y == 0 {
            ModeStep { mode: PlayerMode::Regular, anim: Some(PlayerAnimationNode::Climb), left_ladder: true }
        } else {
            ModeStep { mode, anim: Some(PlayerAnimationNode::Climb), left_ladder: false }
        },
        PlayerMode::Regular => if dir_y != 0 && climb_ready && nearest_ladder is Some {
            ModeStep {
                mode: PlayerMode::Climbing(nearest_ladder->0),
                anim: Some(PlayerAnimationNode::Climb),
                left_ladder: false,
            }
        } else {
            ModeStep { mode, anim: None, left_ladder: false }
        },
        PlayerMode::Spacewalk => ModeStep { mode, anim: Some(PlayerAnimationNode::Float), left_ladder: false },
    }
}

/// See `mode_step`.
pub fn step_mode(
    mode: PlayerMode,
    dir_x: i8,
    dir_y: i8,
    on_floor: bool,
    climb_ready: bool,
    nearest_ladder: Option<u64>,
    ladder_in_reach: bool,
) -> (s: ModeStep)
    ensures
        s == mode_step(mode, dir_x, dir_y, on_floor, climb_ready, nearest_ladder, ladder_in_reach),
{
    match mode {
        PlayerMode::Dance => {
            if dir_x != 0 || !on_floor {
                ModeStep { mode: PlayerMode::Regular, anim: Some(PlayerAnimationNode::Idle), left_ladder: false }
            } else {
                ModeStep { mode, anim: None, left_ladder: false }
            }
        },
        PlayerMode::Climbing(_) => {
            if !ladder_in_reach {
                ModeStep { mode: PlayerMode::Regular, anim: None, left_ladder: true }
            } else if dir_x != 0 && dir_y == 0 {
                ModeStep { mode: PlayerMode::Regular, anim: Some(PlayerAnimationNode::Climb), left_ladder: true }
            } else {
                ModeStep { mode, anim: Some(PlayerAnimationNode::Climb), left_ladder: false }
            }
        },
        PlayerMode::Regular => {
            if dir_y != 0 && climb_ready {
                if let Some(l) = nearest_ladder {
                    return ModeStep {
                        mode: PlayerMode::Climbing(l),
                        anim: Some(PlayerAnimationNode::Climb),
                        left_ladder: false,
                    };
                }
            }
            ModeStep { mode, anim: None, left_ladder: false }
        },
        PlayerMode::Spacewalk => ModeStep { mode, anim: Some(PlayerAnimationNode::Float), left_ladder: false },
    }
}

/// Jumping in the air uses up one of the remaining air jumps; without one
/// left nothing happens. Returns whether the player jumps and the jumps left.
pub fn air_jump(jump_pressed: bool, air_jumps: usize) -> (r: (bool, usize))
    ensures
        jump_pressed && air_jumps > 0 ==> r == (true, (air_jumps - 1) as usize),
        !(jump_pressed && air_jumps > 0) ==> r == (false, air_jumps),
{
    if jump_pressed && air_jumps > 0 {
        (true, air_jumps - 1)
    } else {
        (false, air_jumps)
    }
}

/// Pressing the spacewalk key twice gives back the mode one started in,
/// unless that was a dance or a climb (which the key ends).
pub proof fn lemma_spacewalk_toggle_twice(mode: PlayerMode)
    ensures
        toggle_spacewalk_spec(toggle_spacewalk_spec(mode, true), true) == (if mode is Spacewalk {
            PlayerMode::Spacewalk
        } else {
            PlayerMode::Regular
        }),
{
}

/// How modes follow one another: a spacewalk only ends with the spacewalk
/// key, a dance is never started by a frame, a climb is only started by a
/// walker (and keeps its ladder while it lasts), and letting go of a ladder
/// always leads back to walking.
pub proof fn lemma_mode_transitions(
    mode: PlayerMode,
    dir_x: i8,
    dir_y: i8,
    on_floor: bool,
    climb_ready: bool,
    nearest_ladder: Option<u64>,
    ladder_in_reach: bool,
)
    ensures
        ({
            let s = mode_step(mode, dir_x, dir_y, on_floor, climb_ready, nearest_ladder, ladder_in_reach);
            &&& mode is Spacewalk ==> s.mode == PlayerMode::Spacewalk
            &&& s.mode is Dance ==> mode is Dance
            &&& s.mode is Climbing ==> (mode is Regular || s.mode == mode)
            &&& s.left_ladder ==> mode is Climbing && s.mode == PlayerMode::Regular
        }),
{
}

/// See `toggle_spacewalk`.
pub open spec fn toggle_spacewalk_spec(mode: PlayerMode, pressed: bool) -> PlayerMode {
    if !pressed {
        mode
    } else if mode is Spacewalk {
        PlayerMode::Regular
    } else {
        PlayerMode::Spacewalk
    }
}

/// Up and down act alike on every mode: flipping the vertical direction never
/// changes a frame's outcome. So a walker grabs a ladder pressing down as well
/// as up.
pub proof fn lemma_vertical_direction_symmetric(
    mode: PlayerMode,
    dir_x: i8,
    dir_y: i8,
    on_floor: bool,
    climb_ready: bool,
    nearest_ladder: Option<u64>,
    ladder_in_reach: bool,
)
    requires
        -1 <= dir_y <= 1,
    ensures
        mode_step(mode, dir_x, dir_y, on_floor, climb_ready, nearest_ladder, ladder_in_reach) == mode_step(
            mode,
            dir_x,
            (-dir_y) as i8,
            on_floor,
            climb_ready,
            nearest_ladder,
            ladder_in_reach,
        ),
{
}

/// A walker who may climb and has a ladder in reach grabs it, with the climbing
/// clip, whenever a vertical direction is pressed; with no vertical direction
/// pressed it stays a walker.
pub proof fn lemma_walker_grabs_ladder(
    dir_x: i8,
    dir_y: i8,
    on_floor: bool,
    climb_ready: bool,
    ladder: u64,
    ladder_in_reach: bool,
)
    ensures
        dir_y != 0 && climb_ready ==> mode_step(PlayerMode::Regular, dir_x, dir_y, on_floor, climb_ready, Some(ladder), ladder_in_reach)
            == (ModeStep { mode: PlayerMode::Climbing(ladder), anim: Some(PlayerAnimationNode::Climb), left_ladder: false }),
        dir_y == 0 ==> mode_step(PlayerMode::Regular, dir_x, dir_y, on_floor, climb_ready, Some(ladder), ladder_in_reach).mode
            == PlayerMode::Regular,
{
}

/// A dance ends, back to walking with the idle clip, exactly when a side is
/// pressed or the floor is lost; a climber lets go of the ladder exactly when
/// it is out of reach or only a side is pressed, and otherwise keeps climbing
/// the same ladder with the climbing clip.
pub proof fn lemma_dance_and_climb_endings(
    dir_x: i8,
    dir_y: i8,
    on_floor: bool,
    climb_ready: bool,
    nearest_ladder: Option<u64>,
    ladder: u64,
    ladder_in_reach: bool,
)
    ensures
        ({
            let s = mode_step(PlayerMode::Dance, dir_x, dir_y, on_floor, climb_ready, nearest_ladder, ladder_in_reach);
            &&& (s.mode == PlayerMode::Regular) == (dir_x != 0 || !on_floor)
            &&& s.mode == PlayerMode::Regular ==> s.anim == Some(PlayerAnimationNode::Idle)
            &&& s.mode != PlayerMode::Regular ==> s.mode == PlayerMode::Dance && s.anim is None
        }),
        ({
            let s = mode_step(PlayerMode::Climbing(ladder), dir_x, dir_y, on_floor, climb_ready, nearest_ladder, ladder_in_reach);
            &&& s.left_ladder == (!ladder_in_reach || (dir_x != 0 && dir_y == 0))
            &&& !s.left_ladder ==> s.mode == PlayerMode::Climbing(ladder) && s.anim == Some(PlayerAnimationNode::Climb)
        }),
{
}

} // verus!
