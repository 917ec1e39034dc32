use vstd::prelude::*;

verus! {

/// "Ping-pong" remainder: walking `0, 1, ..., max, max - 1, ..., 1, 0, 1, ...`,
/// the value reached after `x` steps.
pub open spec fn pingpong(x: int, max: int) -> int
    recommends
        max > 0,
{
    let r = x % (2 * max);
    if r >= max {
        max - (r - max)
    } else {
        r
    }
}

/// A remainder that bounces between `0` and `max` instead of wrapping to `0`.
pub trait PingPongRem: Sized {
    /// The inputs on which `pingpong_rem` is defined.
    spec fn pingpong_defined(&self, max: Self) -> bool;

    /// What `pingpong_rem` returns.
    spec fn pingpong_value(&self, max: Self) -> Self;

    fn pingpong_rem(&self, max: Self) -> (r: Self)
        requires
            self.pingpong_defined(max),
        ensures
            r == self.pingpong_value(max),
    ;
}

impl PingPongRem for u32 {
    open spec fn pingpong_defined(&self, max: u32) -> bool {
        0 < max && 2 * max <= u32::MAX
    }

    open spec fn pingpong_value(&self, max: u32) -> u32 {
        pingpong(*self as int, max as int) as u32
    }

    fn pingpong_rem(&self, max: u32) -> (r: u32) {
        let m: u32 = if max * 2 > 1 { max * 2 } else { 1 };
        let r = *self % m;
        assert(m == 2 * max);
        assert(r < 2 * max);
        assert(r / max <= 1) by (nonlinear_arith)
            requires r < 2 * max, max > 0;
        if r / max > 0 {
            assert(max <= r) by (nonlinear_arith)
                requires r / max > 0, max > 0;
            assert(((r / max) * r) % (max as int) == r - max) by (nonlinear_arith)
                requires r / max == 1, max <= r < 2 * max;
            max - r / max * r % max
        } else {
            assert(r < max) by (nonlinear_arith)
                requires r / max == 0, max > 0;
            r
        }
    }
}

impl PingPongRem for usize {
    open spec fn pingpong_defined(&self, max: usize) -> bool {
        0 < max && 2 * max <= usize::MAX
    }

    open spec fn pingpong_value(&self, max: usize) -> usize {
        pingpong(*self as int, max as int) as usize
    }

    fn pingpong_rem(&self, max: usize) -> (r: usize) {
        let m: usize = if max * 2 > 1 { max * 2 } else { 1 };
        let r = *self % m;
        assert(m == 2 * max);
        assert(r < 2 * max);
        assert(r / max <= 1) by (nonlinear_arith)
            requires r < 2 * max, max > 0;
        if r / max > 0 {
            assert(max <= r) by (nonlinear_arith)
                requires r / max > 0, max > 0;
            assert(((r / max) * r) % (max as int) == r - max) by (nonlinear_arith)
                requires r / max == 1, max <= r < 2 * max;
            max - r / max * r % max
        } else {
            assert(r < max) by (nonlinear_arith)
                requires r / max == 0, max > 0;
            r
        }
    }
}

/// The ping-pong remainder never leaves `0 ..= max`.
pub proof fn lemma_pingpong_bounds(x: int, max: int)
    requires
        max > 0,
    ensures
        0 <= pingpong(x, max) <= max,
{
}

/// The ping-pong remainder repeats with period `2 * max`.
pub proof fn lemma_pingpong_periodic(x: int, max: int)
    requires
        max > 0,
    ensures
        pingpong(x + 2 * max, max) == pingpong(x, max),
{
    assert((x + 2 * max) % (2 * max) == x % (2 * max)) by (nonlinear_arith)
        requires max > 0;
}

/// On its first leg the walk counts up: for `0 <= x <= max` the value is `x`.
pub proof fn lemma_pingpong_rising(x: int, max: int)
    requires
        max > 0,
        0 <= x <= max,
    ensures
        pingpong(x, max) == x,
{
    assert(x % (2 * max) == x) by (nonlinear_arith)
        requires max > 0, 0 <= x <= max;
}

/// The walk is symmetric inside each period: `x` and `2 * max - x` land on the
/// same value.
pub proof fn lemma_pingpong_mirror(x: int, max: int)
    requires
        max > 0,
        0 <= x <= 2 * max,
    ensures
        pingpong(2 * max - x, max) == pingpong(x, max),
{
    if x == 0 || x == 2 * max {
        assert((2 * max) % (2 * max) == 0) by (nonlinear_arith)
            requires max > 0;
        assert(0int % (2 * max) == 0) by (nonlinear_arith)
            requires max > 0;
    } else {
        assert(x % (2 * max) == x) by (nonlinear_arith)
            requires max > 0, 0 < x < 2 * max;
        assert((2 * max - x) % (2 * max) == 2 * max - x) by (nonlinear_arith)
            requires max > 0, 0 < x < 2 * max;
    }
}

/// Consecutive steps of the walk are one apart: the value rises by one while
/// `x % (2 * max) < max` and falls by one otherwise.
pub proof fn lemma_pingpong_step(x: int, max: int)
    requires
        max > 0,
    ensures
        x % (2 * max) < max ==> pingpong(x + 1, max) == pingpong(x, max) + 1,
        x % (2 * max) >= max ==> pingpong(x + 1, max) == pingpong(x, max) - 1,
{
    let r = x % (2 * max);
    assert(0 <= r < 2 * max) by (nonlinear_arith)
        requires max > 0, r == x % (2 * max);
    assert((x + 1) % (2 * max) == if r + 1 < 2 * max { r + 1 } else { 0 }) by (nonlinear_arith)
        requires max > 0, r == x % (2 * max), 0 <= r < 2 * max;
}

} // verus!
