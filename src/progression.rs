//! The weight of each set of a progression, from the bar to the work set.
use vstd::prelude::*;

use crate::distribution::{
    is_ticks, lemma_linear_ticks_unique, lemma_sine_ticks_unique, ticks, Distribution, MAX_WEIGHT,
};
use crate::set::{get_reps, get_sub_sets, repeats_spec, reps_spec, LiftSet, MAX_REPS};

verus! {

/// Most sets in a progression.
pub const MAX_SETS: u32 = 6;

/// `w` is the weight of set `i` of a progression of `sets` sets from `min`
/// to `max` shaped by `dist`: `min` plus five units per tick. A progression
/// of one set is the work set alone.
pub open spec fn is_set_weight(min: int, max: int, sets: int, dist: Distribution, i: int, w: int) -> bool {
    if sets == 1 {
        w == max
    } else {
        &&& min <= w
        &&& (w - min) % 5 == 0
        &&& is_ticks(dist, max - min, i, sets - 1, (w - min) / 5)
    }
}

/// `ws` are the weights of a progression of `sets` sets from `min` to `max`.
pub open spec fn is_progression_weights(
    min: int,
    max: int,
    sets: int,
    dist: Distribution,
    ws: Seq<u32>,
) -> bool {
    &&& ws.len() == sets
    &&& forall|i: int| 0 <= i < sets ==> is_set_weight(min, max, sets, dist, i, #[trigger] ws[i] as int)
}

/// `s` is the set at position `i` of `total` that has weight `w`.
pub open spec fn is_set_at(s: LiftSet, i: int, total: int, w: int) -> bool {
    &&& s.weight == w
    &&& s.reps == reps_spec(i, total)
    &&& s.sets == repeats_spec(i, total)
}

/// `ss` is the progression of `sets` sets from `min` to `max` shaped by `dist`.
pub open spec fn is_progression(min: int, max: int, sets: int, dist: Distribution, ss: Seq<LiftSet>) -> bool {
    &&& ss.len() == sets
    &&& forall|i: int|
        0 <= i < sets ==> {
            &&& is_set_weight(min, max, sets, dist, i, (#[trigger] ss[i]).weight as int)
            &&& is_set_at(ss[i], i, sets, ss[i].weight as int)
        }
}

/// The inputs for which a progression is computed.
pub open spec fn progression_input_ok(min: u32, max: u32, sets: u32) -> bool {
    &&& min <= max <= MAX_WEIGHT
    &&& 1 <= sets <= MAX_SETS
}

/// The weights of a progression of `num_sets` sets from `min` (the bar) to
/// `max` (the work set), shaped by `distribution`.
pub fn weights(min: u32, max: u32, num_sets: u32, distribution: Distribution) -> (r: Vec<u32>)
    requires
        progression_input_ok(min, max, num_sets),
    ensures
        is_progression_weights(min as int, max as int, num_sets as int, distribution, r@),
{
    let mut r: Vec<u32> = Vec::new();
    if num_sets == 1 {
        r.push(max);
        return r;
    }
    let delta = max - min;
    let steps = num_sets - 1;
    let mut i: u32 = 0;
    while i < num_sets
        invariant
            progression_input_ok(min, max, num_sets),
            2 <= num_sets,
            delta == max - min,
            steps == num_sets - 1,
            i <= num_sets,
            r@.len() == i,
            forall|j: int|
                0 <= j < i ==> is_set_weight(min as int, max as int, num_sets as int, distribution, j, #[trigger] r@[j] as int),
        decreases num_sets - i,
    {
        let t = ticks(distribution, delta, i, steps);
        let w = min + 5 * t;
        assert((w - min) / 5 == t as int);
        r.push(w);
        i = i + 1;
    }
    r
}

/// The sets for the given weights, in order: each gets the repetitions and
/// repeats of its position.
pub fn sets_from_weights(set_weights: &Vec<u32>) -> (r: Vec<LiftSet>)
    requires
        set_weights@.len() <= u32::MAX,
    ensures
        r@.len() == set_weights@.len(),
        forall|i: int|
            0 <= i < r@.len() ==> is_set_at(#[trigger] r@[i], i, set_weights@.len() as int, set_weights@[i] as int),
{
    let num_sets = set_weights.len() as u32;
    let mut r: Vec<LiftSet> = Vec::new();
    let mut i: u32 = 0;
    while i < num_sets
        invariant
            num_sets as int == set_weights@.len(),
            i <= num_sets,
            r@.len() == i,
            forall|j: int|
                0 <= j < i ==> is_set_at(#[trigger] r@[j], j, num_sets as int, set_weights@[j] as int),
        decreases num_sets - i,
    {
        let s = LiftSet {
            weight: set_weights[i as usize],
            reps: get_reps(i, num_sets),
            sets: get_sub_sets(i, num_sets),
        };
        r.push(s);
        i = i + 1;
    }
    r
}

/// The progression of `sets` sets from `min` (the bar) to `max` (the work
/// set), shaped by `distribution`, each set with its repetitions and repeats.
pub fn get_sets(min: u32, max: u32, sets: u32, distribution: Distribution) -> (r: Vec<LiftSet>)
    requires
        progression_input_ok(min, max, sets),
    ensures
        is_progression(min as int, max as int, sets as int, distribution, r@),
{
    let ws = weights(min, max, sets, distribution);
    let r = sets_from_weights(&ws);
    assert forall|i: int| 0 <= i < sets implies {
        &&& is_set_weight(min as int, max as int, sets as int, distribution, i, (#[trigger] r@[i]).weight as int)
        &&& is_set_at(r@[i], i, sets as int, r@[i].weight as int)
    } by {
        assert(is_set_weight(min as int, max as int, sets as int, distribution, i, ws@[i] as int));
    }
    r
}

/// `x` rounded up to a multiple of five.
pub open spec fn round_up_5_spec(x: int) -> int {
    (x + 4) / 5 * 5
}

/// Rounds `x` up to a multiple of five.
pub fn round_up_5(x: u32) -> (r: u32)
    requires
        x <= u32::MAX - 4,
    ensures
        r == round_up_5_spec(x as int),
        r % 5 == 0,
        x <= r < x + 5,
{
    (x + 4) / 5 * 5
}

/// Weight of set `i` of `sets` in the classic progression from `min` to
/// `max`: even steps of the span divided by the number of steps, rounded up
/// to a multiple of five, and held five units below `max` until the last set.
pub open spec fn classic_weight(min: int, max: int, sets: int, i: int) -> int {
    let step = round_up_5_spec((max - min) / (sets - 1));
    let cap = if i == sets - 1 {
        max
    } else {
        max - 5
    };
    if min + step * i <= cap {
        min + step * i
    } else {
        cap
    }
}

/// The weights of the classic progression of `sets` sets from `min` to `max`.
pub fn get_set_weights(min: u32, max: u32, sets: u32) -> (r: Vec<u32>)
    requires
        5 <= max,
        min <= max <= MAX_WEIGHT,
        2 <= sets <= MAX_SETS,
    ensures
        r@.len() == sets,
        forall|i: int| 0 <= i < sets ==> #[trigger] r@[i] == classic_weight(min as int, max as int, sets as int, i),
{
    let mut rv: Vec<u32> = Vec::new();
    let delta = round_up_5((max - min) / (sets - 1));
    let mut set: u32 = 0;
    while set < sets
        invariant
            5 <= max,
            min <= max <= MAX_WEIGHT,
            2 <= sets <= MAX_SETS,
            delta == round_up_5_spec((max - min) / (sets - 1)),
            delta <= max - min + 4,
            set <= sets,
            rv@.len() == set,
            forall|i: int| 0 <= i < set ==> #[trigger] rv@[i] == classic_weight(min as int, max as int, sets as int, i),
        decreases sets - set,
    {
        let set_max = if set == sets - 1 {
            max
        } else {
            max - 5
        };
        assert(delta * set <= (MAX_WEIGHT + 4) * MAX_SETS) by (nonlinear_arith)
            requires
                delta <= MAX_WEIGHT + 4,
                set <= MAX_SETS,
        ;
        let stepped = min + delta * set;
        let weight = if stepped <= set_max {
            stepped
        } else {
            set_max
        };
        rv.push(weight);
        set = set + 1;
    }
    rv
}

/// The first set of a progression of two or more sets is the bar, and the
/// last is the work set, when the span from one to the other is a whole
/// number of five-unit ticks.
pub proof fn lemma_progression_ends(
    bar: u32,
    work_set: u32,
    num_sets: u32,
    dist: Distribution,
    s: Seq<LiftSet>,
)
    requires
        is_progression(bar as int, work_set as int, num_sets as int, dist, s),
        bar <= work_set,
        2 <= num_sets,
        (work_set - bar) % 5 == 0,
    ensures
        s[0].weight == bar,
        s[num_sets - 1].weight == work_set,
{
    let n = num_sets - 1;
    let d = work_set - bar;
    let w0 = s[0].weight as int;
    let wn = s[n as int].weight as int;
    assert(is_set_weight(bar as int, work_set as int, num_sets as int, dist, 0, w0));
    assert(is_set_weight(bar as int, work_set as int, num_sets as int, dist, n as int, wn));
    let t0 = (w0 - bar) / 5;
    let tn = (wn - bar) / 5;
    match dist {
        Distribution::Linear => {
            assert(t0 == 0) by (nonlinear_arith)
                requires
                    5 * n * (t0 - 1) < 0 * d,
                    0 <= t0,
                    1 <= n,
            ;
            assert(d == 5 * tn) by (nonlinear_arith)
                requires
                    5 * n * (tn - 1) < n * d,
                    n * d <= 5 * n * tn,
                    d % 5 == 0,
                    1 <= n,
            ;
        },
        Distribution::Sin => {
            assert(t0 == 0) by (nonlinear_arith)
                requires
                    1 * ((5 * t0) * (5 * t0)) <= 0 * (d * d),
            ;
            assert(d == 5 * tn) by (nonlinear_arith)
                requires
                    1 * ((5 * tn) * (5 * tn)) <= 1 * (d * d),
                    !(1 * ((5 * tn + 5) * (5 * tn + 5)) <= 1 * (d * d)),
                    0 <= tn,
                    0 <= d,
                    d % 5 == 0,
            ;
        },
    }
}

/// The work set gets full repetitions and three repeats, and the first set
/// two repeats, in every progression of two or more sets.
pub proof fn lemma_reps_at_the_ends(total: int)
    requires
        total >= 2,
    ensures
        reps_spec(total - 1, total) == MAX_REPS,
        repeats_spec(total - 1, total) == 3,
        repeats_spec(0, total) == 2,
{
}

/// A progression is determined by its inputs: two results of `get_sets` on
/// the same arguments are equal.
pub proof fn lemma_progression_deterministic(
    min: u32,
    max: u32,
    sets: u32,
    dist: Distribution,
    s1: Seq<LiftSet>,
    s2: Seq<LiftSet>,
)
    requires
        progression_input_ok(min, max, sets),
        is_progression(min as int, max as int, sets as int, dist, s1),
        is_progression(min as int, max as int, sets as int, dist, s2),
    ensures
        s1 == s2,
{
    assert forall|i: int| 0 <= i < sets implies s1[i] == s2[i] by {
        let w1 = s1[i].weight as int;
        let w2 = s2[i].weight as int;
        assert(is_set_weight(min as int, max as int, sets as int, dist, i, w1));
        assert(is_set_weight(min as int, max as int, sets as int, dist, i, w2));
        if sets > 1 {
            let d = max - min;
            match dist {
                Distribution::Linear => {
                    lemma_linear_ticks_unique(d as int, i, sets - 1, (w1 - min) / 5, (w2 - min) / 5);
                },
                Distribution::Sin => {
                    lemma_sine_ticks_unique(d as int, i, sets - 1, (w1 - min) / 5, (w2 - min) / 5);
                },
            }
        }
    }
    assert(s1 =~= s2);
}

} // verus!
