//! Timestamps: cycle boundaries and the settle point inside a cycle.

use vstd::prelude::*;

verus! {

/// Distance between two cycle boundaries, in time units.
pub const STRIDE: usize = 100;

/// Offset of the settle point from the cycle boundary before it. Buffered effects become
/// visible when the clock reaches the settle point.
pub const SETTLE_OFFSET: usize = 50;

/// Number of cycles a bundled design runs at most.
pub const CYCLE_BUDGET: usize = 100;

/// Number of consecutive idle cycles after which a bundled design stops.
pub const IDLE_THRESHOLD: usize = 100;

/// The cycle boundary at or before `clock`.
pub open spec fn boundary(clock: int) -> int {
    clock - clock % (STRIDE as int)
}

/// The settle point of the cycle that `clock` lies in.
pub open spec fn settle_point(clock: int) -> int {
    boundary(clock) + SETTLE_OFFSET
}

/// The first cycle boundary after `clock`.
pub open spec fn next_boundary(clock: int) -> int {
    boundary(clock) + STRIDE
}

/// The timestamp at which effects buffered at `clock` settle.
pub fn settle_stamp(clock: usize) -> (stamp: usize)
    requires
        clock + SETTLE_OFFSET <= usize::MAX,
    ensures
        stamp == settle_point(clock as int),
{
    clock - clock % STRIDE + SETTLE_OFFSET
}

/// The timestamp at which a module woken at `clock` is first attempted.
pub fn wake_stamp(clock: usize) -> (stamp: usize)
    requires
        clock + STRIDE <= usize::MAX,
    ensures
        stamp == next_boundary(clock as int),
{
    clock - clock % STRIDE + STRIDE
}

} // verus!
