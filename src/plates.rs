//! The plates that go on each side of the bar.
//!
//! Plates are counted in half units, so that the smallest plate, 2.5 units,
//! is 5. The plates for one side of a load of `w` units then add up to `w`
//! half units.
use vstd::prelude::*;

verus! {

/// Number of plates in the inventory.
pub const PLATE_COUNT: usize = 7;

/// The plates at hand for one side of the bar, heaviest first, in half
/// units: 45, 35, 25, 10, 5, 5 and 2.5 units, each to be used at most once.
pub open spec fn plate_inventory() -> Seq<u32> {
    seq![90, 70, 50, 20, 10, 10, 5]
}

/// Why no set of plates was found.
#[derive(Clone, Copy, Debug, PartialEq, Eq, Structural)]
pub enum PlateError {
    /// The scan ended on a plate too heavy for what was left.
    ExceedsTarget,
    /// The scan used up the inventory short of the target.
    NoExactSolution,
}

/// What is left of `target` after the greedy scan of the first `k` plates:
/// each plate is taken when it fits in what is left.
pub open spec fn remaining(target: int, k: int) -> int
    decreases k,
{
    if k <= 0 {
        target
    } else {
        let left = remaining(target, k - 1);
        if plate_inventory()[k - 1] <= left {
            left - plate_inventory()[k - 1]
        } else {
            left
        }
    }
}

/// The greedy scan takes plate `k`.
pub open spec fn taken(target: int, k: int) -> bool {
    plate_inventory()[k] <= remaining(target, k)
}

/// The plates that the greedy scan of the first `k` plates takes, in order.
pub open spec fn chosen(target: int, k: int) -> Seq<u32>
    decreases k,
{
    if k <= 0 {
        Seq::empty()
    } else if taken(target, k - 1) {
        chosen(target, k - 1).push(plate_inventory()[k - 1])
    } else {
        chosen(target, k - 1)
    }
}

/// The plates for one side of a load of `w` units, in half units: none for
/// no load; otherwise those of the greedy scan if they add up to `w`. When
/// they do not, the scan fails on the last plate if that one was too heavy,
/// and for want of plates if it was taken.
pub open spec fn plates_result(w: int) -> Result<Seq<u32>, PlateError> {
    if w == 0 {
        Ok(Seq::empty())
    } else if remaining(w, PLATE_COUNT as int) == 0 {
        Ok(chosen(w, PLATE_COUNT as int))
    } else if taken(w, PLATE_COUNT - 1) {
        Err(PlateError::NoExactSolution)
    } else {
        Err(PlateError::ExceedsTarget)
    }
}

/// A result with its plates as a sequence.
pub open spec fn result_view(r: Result<Vec<u32>, PlateError>) -> Result<Seq<u32>, PlateError> {
    match r {
        Ok(v) => Ok(v@),
        Err(e) => Err(e),
    }
}

/// The total of some plates.
pub open spec fn total(s: Seq<u32>) -> int
    decreases s.len(),
{
    if s.len() == 0 {
        0
    } else {
        total(s.drop_last()) + s.last()
    }
}

/// `t` is the total of some of the plates from position `k` on.
pub open spec fn representable(t: int, k: int) -> bool
    decreases PLATE_COUNT - k,
{
    if k >= PLATE_COUNT {
        t == 0
    } else {
        representable(t, k + 1) || representable(t - plate_inventory()[k], k + 1)
    }
}

/// The plate at position `k` of the inventory.
fn plate_at(k: usize) -> (r: u32)
    requires
        k < PLATE_COUNT,
    ensures
        r == plate_inventory()[k as int],
{
    match k {
        0 => 90,
        1 => 70,
        2 => 50,
        3 => 20,
        4 => 10,
        5 => 10,
        _ => 5,
    }
}

/// Once nothing is left, the scan takes no more plates.
proof fn lemma_settled(target: int, k: int, j: int)
    requires
        0 <= k <= j <= PLATE_COUNT,
        remaining(target, k) == 0,
    ensures
        remaining(target, j) == 0,
        chosen(target, j) == chosen(target, k),
    decreases j - k,
{
    if k < j {
        lemma_settled(target, k, j - 1);
    }
}

/// The plates chosen so far add up to what has been taken off the target.
proof fn lemma_chosen_total(target: int, k: int)
    requires
        0 <= k <= PLATE_COUNT,
    ensures
        total(chosen(target, k)) == target - remaining(target, k),
    decreases k,
{
    if k > 0 {
        lemma_chosen_total(target, k - 1);
        let c = chosen(target, k - 1);
        if taken(target, k - 1) {
            assert(c.push(plate_inventory()[k - 1]).drop_last() == c);
        }
    }
}

/// The plates for one side of the bar for a load of `weight` units above
/// the bar, in half units, heaviest first.
pub fn get_plates(weight: u32) -> (r: Result<Vec<u32>, PlateError>)
    ensures
        result_view(r) == plates_result(weight as int),
{
    if weight == 0 {
        return Ok(Vec::new());
    }
    let target = weight as u64;
    let mut required: Vec<u32> = Vec::new();
    let mut sum: u64 = 0;
    let mut next_sum: u64 = 0;
    let mut k: usize = 0;
    while k < PLATE_COUNT
        invariant
            target == weight,
            target > 0,
            k <= PLATE_COUNT,
            sum == target - remaining(target as int, k as int),
            remaining(target as int, k as int) > 0,
            required@ == chosen(target as int, k as int),
            k > 0 ==> next_sum == target - remaining(target as int, k - 1) + plate_inventory()[k - 1],
        decreases PLATE_COUNT - k,
    {
        let plate = plate_at(k);
        next_sum = sum + plate as u64;
        if next_sum <= target {
            required.push(plate);
            sum = next_sum;
            if sum == target {
                proof {
                    lemma_settled(target as int, k + 1, PLATE_COUNT as int);
                }
                return Ok(required);
            }
        }
        k = k + 1;
    }
    if next_sum > target {
        Err(PlateError::ExceedsTarget)
    } else {
        Err(PlateError::NoExactSolution)
    }
}

/// Every load whose half can be made of the inventory's plates gets plates
/// that make it exactly.
pub proof fn lemma_representable_load_is_met(w: u32)
    requires
        representable(w as int, 0),
    ensures
        plates_result(w as int) is Ok,
        total(plates_result(w as int)->Ok_0) == w,
{
    lemma_representable_bounds(w as int, 0);
    reveal_with_fuel(suffix_total, 8);
    lemma_greedy_meets_multiples_of_five(w as int);
    lemma_chosen_total(w as int, PLATE_COUNT as int);
}

/// The plates for a load are determined by the load: two results of
/// `get_plates` on the same load are equal.
pub proof fn lemma_plates_deterministic(
    w: u32,
    r1: Result<Vec<u32>, PlateError>,
    r2: Result<Vec<u32>, PlateError>,
)
    requires
        result_view(r1) == plates_result(w as int),
        result_view(r2) == plates_result(w as int),
    ensures
        result_view(r1) == result_view(r2),
{
}

/// No load gets no plates.
pub proof fn lemma_no_load_no_plates()
    ensures
        plates_result(0) == Ok::<Seq<u32>, PlateError>(Seq::empty()),
{
}

/// The total of plates from position `k` on.
spec fn suffix_total(k: int) -> int
    decreases PLATE_COUNT - k,
{
    if k >= PLATE_COUNT {
        0
    } else {
        plate_inventory()[k] + suffix_total(k + 1)
    }
}

proof fn lemma_representable_bounds(t: int, k: int)
    requires
        0 <= k <= PLATE_COUNT,
        representable(t, k),
    ensures
        0 <= t <= suffix_total(k),
        t % 5 == 0,
    decreases PLATE_COUNT - k,
{
    if k < PLATE_COUNT {
        if representable(t, k + 1) {
            lemma_representable_bounds(t, k + 1);
        } else {
            lemma_representable_bounds(t - plate_inventory()[k], k + 1);
        }
    }
}

proof fn lemma_greedy_meets_multiples_of_five(t: int)
    requires
        0 <= t <= 255,
        t % 5 == 0,
    ensures
        remaining(t, PLATE_COUNT as int) == 0,
{
    reveal_with_fuel(remaining, 8);
}

} // verus!
