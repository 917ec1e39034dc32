use vstd::prelude::*;
use crate::utils::{lemma_pingpong_step, pingpong, PingPongRem};

verus! {

/// How a moving platform walks its list of waypoints.
#[derive(Clone, Copy, Debug, PartialEq, Eq, Structural)]
pub enum MovingPlatformMode {
    /// After the last waypoint comes the first one again.
    Loop,
    /// The waypoints are walked forth and back.
    PingPong,
}

/// The waypoint that step `index` of a walk over `len` waypoints is at.
pub open spec fn waypoint(mode: MovingPlatformMode, index: int, len: int) -> int {
    match mode {
        MovingPlatformMode::Loop => index % len,
        MovingPlatformMode::PingPong => pingpong(index, len),
    }
}

/// The waypoint for step `index` of a platform with `len` waypoints.
pub fn get_index(mode: MovingPlatformMode, index: usize, len: usize) -> (r: usize)
    requires
        len > 0,
        mode == MovingPlatformMode::PingPong ==> 2 * len <= usize::MAX,
    ensures
        r == waypoint(mode, index as int, len as int),
{
    match mode {
        MovingPlatformMode::Loop => index % len,
        MovingPlatformMode::PingPong => index.pingpong_rem(len),
    }
}

/// A looping platform's waypoint index is always a valid position, and the
/// walk repeats after `len` steps; a ping-pong walk stays within `0..=len`
/// and repeats after `2 * len` steps.
pub proof fn lemma_waypoint_bounds(mode: MovingPlatformMode, index: int, len: int)
    requires
        len > 0,
        index >= 0,
    ensures
        mode == MovingPlatformMode::Loop ==> 0 <= waypoint(mode, index, len) < len
            && waypoint(mode, index + len, len) == waypoint(mode, index, len),
        mode == MovingPlatformMode::PingPong ==> 0 <= waypoint(mode, index, len) <= len
            && waypoint(mode, index + 2 * len, len) == waypoint(mode, index, len),
{
    assert((index + len) % len == index % len) by (nonlinear_arith)
        requires len > 0;
    assert((index + 2 * len) % (2 * len) == index % (2 * len)) by (nonlinear_arith)
        requires len > 0;
}

/// On a ping-pong walk the platform moves to a neighbouring waypoint at every
/// step: two consecutive steps are exactly one waypoint apart.
pub proof fn lemma_pingpong_waypoints_adjacent(index: int, len: int)
    requires
        len > 0,
    ensures
        waypoint(MovingPlatformMode::PingPong, index + 1, len) == waypoint(MovingPlatformMode::PingPong, index, len) + 1
            || waypoint(MovingPlatformMode::PingPong, index + 1, len) == waypoint(MovingPlatformMode::PingPong, index, len)
            - 1,
{
    lemma_pingpong_step(index, len);
}

} // verus!
