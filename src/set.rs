use vstd::prelude::*;

verus! {

/// Repetitions of the first set and of the work set.
pub const MAX_REPS: u32 = 5;

/// Repetitions of the set at `index` in a progression of `total` sets: the
/// work set (the last) gets the full count, the others one fewer per step
/// away from the first, but never fewer than one.
pub open spec fn reps_spec(index: int, total: int) -> int {
    if index == total - 1 {
        MAX_REPS as int
    } else if MAX_REPS - index >= 1 {
        MAX_REPS - index
    } else {
        1
    }
}

/// How many times the set at `index` is repeated: three times for the work
/// set, twice for the first set, once for those in between.
pub open spec fn repeats_spec(index: int, total: int) -> int {
    if index == total - 1 {
        3
    } else if index == 0 {
        2
    } else {
        1
    }
}

/// One block of repetitions at a single weight.
#[derive(Clone, Copy, Debug, PartialEq, Eq, Structural)]
pub struct LiftSet {
    /// Total weight of the set, bar included.
    pub weight: u32,
    /// The number of repetitions.
    pub reps: u32,
    /// The number of times the set is repeated.
    pub sets: u32,
}

/// Repetitions of set `set` out of `sets`.
pub fn get_reps(set: u32, sets: u32) -> (r: u32)
    requires
        sets >= 1,
    ensures
        r == reps_spec(set as int, sets as int),
        1 <= r <= MAX_REPS,
{
    let upper_bound = sets - 1;
    if set == upper_bound {
        MAX_REPS
    } else if set < MAX_REPS {
        MAX_REPS - set
    } else {
        1
    }
}

/// Repeats of set `set` out of `sets`.
pub fn get_sub_sets(set: u32, sets: u32) -> (r: u32)
    requires
        sets >= 1,
    ensures
        r == repeats_spec(set as int, sets as int),
        1 <= r <= 3,
{
    let upper_bound = sets - 1;
    if set == upper_bound {
        3
    } else if set == 0 {
        2
    } else {
        1
    }
}

} // verus!
