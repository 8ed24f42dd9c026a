//! Warm-up progressions for barbell training: the weight of each set on the
//! way from the empty bar to the work set, how many repetitions and repeats
//! each set gets, and which plates go on each side of the bar.

pub mod config;
pub mod distribution;
pub mod plates;
pub mod progression;
pub mod set;

pub use config::Config;
pub use distribution::{Distribution, MAX_WEIGHT};
pub use plates::{get_plates, PlateError};
pub use progression::{get_set_weights, get_sets, round_up_5, sets_from_weights, weights, MAX_SETS};
pub use set::{get_reps, get_sub_sets, LiftSet, MAX_REPS};
