use vstd::prelude::*;
use crate::malfunction::{Malfunction, MalfunctionType, Resolved};
use crate::pipe_puzzle::{atlas_index, cell_at, rotated, solved, GridPos, PipeMinigame, COLS, ROWS};
use crate::hack::{HackGrid, HackSelection};
use crate::wires::{ConnectOutcome, WireMinigame};

verus! {

/// Status line of the collision console: the course is clear after a submit.
pub const TRAJECTORY_SAFE: &'static str = "  TRAJECTORY SAFE  ";
/// Status line of the collision console: the current course hits debris.
pub const COLLISION_IMPENDING: &'static str = "IMPENDING COLLISION";
/// Status line of the collision console: the current course misses debris.
pub const COLLISION_AVOIDED: &'static str = " COLLISION AVOIDED ";
/// Status line of the antenna console after a successful submit.
pub const ANTENNAS_WORK: &'static str = "Antennas Work Normally";
/// Status line of the antenna console: the waves match.
pub const WAVES_SYNCHRONISED: &'static str = "  Waves Synchronised  ";
/// Status line of the antenna console: the waves differ.
pub const WAVES_NOT_SYNCHRONISED: &'static str = "Waves Not Synchronised ";

/// The submit button of a repair console: whether it was pressed last frame
/// and whether a solution has been submitted and not yet judged.
#[derive(Clone, Copy, Debug, PartialEq, Eq, Structural)]
pub struct SubmitButtonState {
    pub prev_pressed: bool,
    pub submitted: bool,
}

impl SubmitButtonState {
    /// Not pressed, nothing submitted.
    pub fn new() -> (s: Self)
        ensures
            !s.prev_pressed,
            !s.submitted,
    {
        SubmitButtonState { prev_pressed: false, submitted: false }
    }

    /// One frame of the button: letting go of it while the system is broken
    /// submits the solution. Returns the button's sprite frame.
    pub fn update(&mut self, pressed: bool, in_progress: bool) -> (frame: usize)
        ensures
            frame == (if pressed { 1usize } else { 0usize }),
            final(self).prev_pressed == pressed,
            final(self).submitted == (old(self).submitted || (old(self).prev_pressed && !pressed
                && in_progress)),
    {
        if self.prev_pressed && !pressed && in_progress {
            self.submitted = true;
        }
        self.prev_pressed = pressed;
        if pressed {
            1
        } else {
            0
        }
    }
}

/// Judges the collision console for this frame (its status line is shown).
/// While a collision course is set, the line tells whether the chosen
/// manoeuvre still hits debris; a submitted solution is judged: the repair
/// is queued as failed exactly when it still hits, the line reads
/// `TRAJECTORY_SAFE` when it does not, and the button is reset. Returns the
/// new line (`None`: unchanged) and whether a solution was judged.
pub fn collision_verdict(
    button: &mut SubmitButtonState,
    malfunction: &mut Malfunction,
    intersects: bool,
) -> (r: (Option<&'static str>, bool))
    ensures
        ({
            let in_progress = old(malfunction).malfunction_types@.contains(MalfunctionType::Collision);
            let judged = in_progress && old(button).submitted;
            &&& r.1 == judged
            &&& !in_progress ==> r.0 is None
            &&& in_progress ==> r.0 == Some(
                if judged && !intersects {
                    TRAJECTORY_SAFE
                } else if intersects {
                    COLLISION_IMPENDING
                } else {
                    COLLISION_AVOIDED
                },
            )
            &&& judged ==> final(malfunction).resolved@ == old(malfunction).resolved@.push(
                Resolved { resolved_type: MalfunctionType::Collision, failed: intersects },
            ) && *final(button) == SubmitButtonState::new_spec()
            &&& !judged ==> final(malfunction).resolved@ == old(malfunction).resolved@ && *final(button)
                == *old(button)
        }),
        final(malfunction).malfunction_types@ == old(malfunction).malfunction_types@,
        final(malfunction).in_progress == old(malfunction).in_progress,
        final(malfunction).added_new_malfunction == old(malfunction).added_new_malfunction,
{
    let in_progress = malfunction.has(MalfunctionType::Collision);
    if !in_progress {
        return (None, false);
    }
    let mut text = if intersects {
        COLLISION_IMPENDING
    } else {
        COLLISION_AVOIDED
    };
    if button.submitted {
        if !intersects {
            text = TRAJECTORY_SAFE;
        }
        malfunction.resolved.push(Resolved { resolved_type: MalfunctionType::Collision, failed: intersects });
        button.prev_pressed = false;
        button.submitted = false;
        return (Some(text), true);
    }
    (Some(text), false)
}

/// Judges the antenna console for this frame (its status line is shown and
/// the target waves are generated). While the antennas are broken, the line
/// tells whether the waves match; a submitted solution is judged: the repair
/// is queued as failed exactly when they differ, the line reads
/// `ANTENNAS_WORK` when they match, and the button is reset. Returns the
/// new line (`None`: unchanged) and whether a solution was judged.
pub fn waves_verdict(
    button: &mut SubmitButtonState,
    malfunction: &mut Malfunction,
    loaded: bool,
    in_sync: bool,
) -> (r: (Option<&'static str>, bool))
    ensures
        ({
            let active = old(malfunction).malfunction_types@.contains(MalfunctionType::Waves) && loaded;
            let judged = active && old(button).submitted;
            &&& r.1 == judged
            &&& !active ==> r.0 is None
            &&& active ==> r.0 == Some(
                if judged && in_sync {
                    ANTENNAS_WORK
                } else if in_sync {
                    WAVES_SYNCHRONISED
                } else {
                    WAVES_NOT_SYNCHRONISED
                },
            )
            &&& judged ==> final(malfunction).resolved@ == old(malfunction).resolved@.push(
                Resolved { resolved_type: MalfunctionType::Waves, failed: !in_sync },
            ) && *final(button) == SubmitButtonState::new_spec()
            &&& !judged ==> final(malfunction).resolved@ == old(malfunction).resolved@ && *final(button)
                == *old(button)
        }),
        final(malfunction).malfunction_types@ == old(malfunction).malfunction_types@,
        final(malfunction).in_progress == old(malfunction).in_progress,
        final(malfunction).added_new_malfunction == old(malfunction).added_new_malfunction,
{
    let in_progress = malfunction.has(MalfunctionType::Waves);
    if !(in_progress && loaded) {
        return (None, false);
    }
    let mut text = if in_sync {
        WAVES_SYNCHRONISED
    } else {
        WAVES_NOT_SYNCHRONISED
    };
    if button.submitted {
        if in_sync {
            text = ANTENNAS_WORK;
        }
        malfunction.resolved.push(Resolved { resolved_type: MalfunctionType::Waves, failed: !in_sync });
        button.prev_pressed = false;
        button.submitted = false;
        return (Some(text), true);
    }
    (Some(text), false)
}

/// A click on the pipe at column `pos.x`, row `pos.y` of the engine console:
/// the pipe turns a quarter turn, and when the grid is then solved the engine
/// repair is queued as successful. Returns the new sprite frame of the cell
/// (`None` for an empty cell or one outside the grid) and whether the grid is
/// solved.
pub fn press_pipe(pipes: &mut PipeMinigame, pos: GridPos, malfunction: &mut Malfunction) -> (r: (
    Option<usize>,
    bool,
))
    requires
        old(pipes).wf(),
    ensures
        final(pipes).wf(),
        final(pipes)@ == rotated(old(pipes)@, pos.x as int, pos.y as int),
        r.1 == solved(final(pipes)@),
        (pos.x < COLS && pos.y < ROWS) ==> r.0 == match cell_at(final(pipes)@, pos.y as int, pos.x as int) {
            Some(p) => Some(atlas_index(p)),
            None => None::<usize>,
        },
        !(pos.x < COLS && pos.y < ROWS) ==> r.0 is None,
        r.1 ==> final(malfunction).resolved@ == old(malfunction).resolved@.push(
            Resolved { resolved_type: MalfunctionType::Engine, failed: false },
        ),
        !r.1 ==> final(malfunction).resolved@ == old(malfunction).resolved@,
        final(malfunction).malfunction_types@ == old(malfunction).malfunction_types@,
        final(malfunction).in_progress == old(malfunction).in_progress,
        final(malfunction).added_new_malfunction == old(malfunction).added_new_malfunction,
{
    pipes.rotate(pos);
    let frame = match pipes.get_pipe(pos.x as usize, pos.y as usize) {
        Some(p) => Some(p.get_index()),
        None => None,
    };
    let done = pipes.is_solved();
    if done {
        malfunction.resolved.push(Resolved { resolved_type: MalfunctionType::Engine, failed: false });
    }
    (frame, done)
}

/// Ends a hacking attempt once enough buttons are picked: the puzzle is
/// unloaded and the satellite repair is queued, failed exactly when the picked
/// symbols differ from the sequence to enter. Returns whether the attempt
/// succeeded, or `None` (nothing changed) while picks are missing.
pub fn finish_hack(selection: &mut HackSelection, grid: &mut HackGrid, malfunction: &mut Malfunction) -> (r:
    Option<bool>)
    ensures
        old(selection).positions@.len() == old(grid).win_seq@.len() ==> {
            &&& r == Some(old(selection).indices@ == old(grid).win_seq@)
            &&& !final(grid).is_loaded
            &&& final(selection).positions@.len() == 0
            &&& final(selection).indices@.len() == 0
            &&& final(malfunction).resolved@ == old(malfunction).resolved@.push(
                Resolved { resolved_type: MalfunctionType::Hack, failed: old(selection).indices@ != old(grid).win_seq@ },
            )
        },
        old(selection).positions@.len() != old(grid).win_seq@.len() ==> {
            &&& r is None
            &&& final(grid).is_loaded == old(grid).is_loaded
            &&& final(selection).positions@ == old(selection).positions@
            &&& final(selection).indices@ == old(selection).indices@
            &&& final(malfunction).resolved@ == old(malfunction).resolved@
        },
        final(grid).grid@ == old(grid).grid@,
        final(grid).win_seq@ == old(grid).win_seq@,
        final(malfunction).malfunction_types@ == old(malfunction).malfunction_types@,
        final(malfunction).in_progress == old(malfunction).in_progress,
        final(malfunction).added_new_malfunction == old(malfunction).added_new_malfunction,
{
    match selection.finish(&grid.win_seq) {
        Some(failed) => {
            grid.is_loaded = false;
            malfunction.resolved.push(Resolved { resolved_type: MalfunctionType::Hack, failed });
            Some(!failed)
        },
        None => None,
    }
}

/// Drops the dragged wire from socket `from` onto socket `to` (see
/// `WireMinigame::connect`) and queues the reactor repair: failed for a wrong
/// wire, successful when the task is reported solved.
pub fn drop_wire(wires: &mut WireMinigame, from: usize, to: usize, malfunction: &mut Malfunction) -> (outcome:
    ConnectOutcome)
    requires
        from != to,
    ensures
        (old(wires).connected@.contains_key(to) || old(wires).connected@.contains_key(from)) ==> (
        outcome == ConnectOutcome::AlreadyConnected && final(wires).connected@ == old(wires).connected@),
        !(old(wires).connected@.contains_key(to) || old(wires).connected@.contains_key(from)) ==> {
            &&& final(wires).connected@ == old(wires).connected@.insert(from, to).insert(to, from)
            &&& outcome == if !(old(wires).task@.contains_key(from) && old(wires).task@[from] == to) {
                ConnectOutcome::Wrong
            } else if old(wires).connected@.len() == old(wires).task@.len() {
                ConnectOutcome::Solved
            } else {
                ConnectOutcome::Connected
            }
        },
        final(wires).task@ == old(wires).task@,
        outcome == ConnectOutcome::Wrong ==> final(malfunction).resolved@ == old(malfunction).resolved@.push(
            Resolved { resolved_type: MalfunctionType::Reactor, failed: true },
        ),
        outcome == ConnectOutcome::Solved ==> final(malfunction).resolved@ == old(malfunction).resolved@.push(
            Resolved { resolved_type: MalfunctionType::Reactor, failed: false },
        ),
        (outcome == ConnectOutcome::Connected || outcome == ConnectOutcome::AlreadyConnected)
            ==> final(malfunction).resolved@ == old(malfunction).resolved@,
        final(malfunction).malfunction_types@ == old(malfunction).malfunction_types@,
        final(malfunction).in_progress == old(malfunction).in_progress,
        final(malfunction).added_new_malfunction == old(malfunction).added_new_malfunction,
{
    let outcome = wires.connect(from, to);
    match outcome {
        ConnectOutcome::Wrong => {
            malfunction.resolved.push(Resolved { resolved_type: MalfunctionType::Reactor, failed: true });
        },
        ConnectOutcome::Solved => {
            malfunction.resolved.push(Resolved { resolved_type: MalfunctionType::Reactor, failed: false });
        },
        _ => {},
    }
    outcome
}

impl Default for SubmitButtonState {
    /// Not pressed, nothing submitted.
    fn default() -> (s: Self)
        ensures
            s == SubmitButtonState::new_spec(),
    {
        SubmitButtonState::new()
    }
}

impl SubmitButtonState {
    /// A button not pressed, with nothing submitted.
    pub open spec fn new_spec() -> Self {
        SubmitButtonState { prev_pressed: false, submitted: false }
    }
}

} // verus!
