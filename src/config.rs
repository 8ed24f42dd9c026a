//! The settings of one run: the bar, the number of sets and the work set.
use vstd::prelude::*;

use crate::distribution::MAX_WEIGHT;
use crate::progression::{progression_input_ok, MAX_SETS};

verus! {

/// The settings of one run.
#[derive(Clone, Copy, Debug, PartialEq, Eq, Structural)]
pub struct Config {
    /// Weight of the empty bar.
    pub bar: u32,
    /// Number of sets, work set included.
    pub sets: u32,
    /// Weight of the work set.
    pub work_set: u32,
}

impl Config {
    /// Whether a progression can be computed for these settings: the work
    /// set is at least the bar and at most `MAX_WEIGHT`, and there are one
    /// to `MAX_SETS` sets.
    pub fn is_valid(&self) -> (r: bool)
        ensures
            r == progression_input_ok(self.bar, self.work_set, self.sets),
    {
        self.bar <= self.work_set && self.work_set <= MAX_WEIGHT && 1 <= self.sets && self.sets
            <= MAX_SETS
    }
}

} // verus!
