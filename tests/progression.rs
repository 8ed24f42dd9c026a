use lift::{get_set_weights, get_sets, round_up_5, sets_from_weights, weights, Distribution, LiftSet, MAX_WEIGHT};

fn show(sets: &[LiftSet]) -> String {
    let parts: Vec<String> = sets
        .iter()
        .map(|s| format!("{}x{}x{}", s.weight, s.reps, s.sets))
        .collect();
    format!("[{}]", parts.join(", "))
}

fn weights_of(sets: &[LiftSet]) -> Vec<u32> {
    sets.iter().map(|s| s.weight).collect()
}

#[test]
fn lib_typ() {
    assert_eq!(
        show(&get_sets(45, 85, 5, Distribution::Sin)),
        "[45x5x2, 60x4x1, 70x3x1, 80x2x1, 85x5x3]"
    );
    assert_eq!(
        show(&get_sets(45, 105, 5, Distribution::Sin)),
        "[45x5x2, 65x4x1, 85x3x1, 100x2x1, 105x5x3]"
    );
}

#[test]
fn lib_fractional_delta() {
    assert_eq!(
        show(&get_sets(45, 90, 5, Distribution::Sin)),
        "[45x5x2, 60x4x1, 75x3x1, 85x2x1, 90x5x3]"
    );
    assert_eq!(
        show(&get_sets(45, 95, 5, Distribution::Sin)),
        "[45x5x2, 60x4x1, 80x3x1, 90x2x1, 95x5x3]"
    );
    assert_eq!(
        show(&get_sets(45, 100, 5, Distribution::Sin)),
        "[45x5x2, 65x4x1, 80x3x1, 95x2x1, 100x5x3]"
    );
}

#[test]
fn compare() {
    assert_eq!(round_up_5(0), 0);
    assert_eq!(round_up_5(1), 5);
    assert_eq!(round_up_5(2), 5);
    assert_eq!(round_up_5(3), 5);
    assert_eq!(round_up_5(4), 5);
    assert_eq!(round_up_5(5), 5);
    assert_eq!(round_up_5(6), 10);
}

#[test]
fn dist_lin() {
    assert_eq!(weights(45, 85, 5, Distribution::Linear), vec![45, 55, 65, 75, 85]);
    assert_eq!(weights(45, 105, 5, Distribution::Linear), vec![45, 60, 75, 90, 105]);
}

#[test]
fn dist_sin_fractional_delta() {
    assert_eq!(weights(45, 90, 5, Distribution::Sin), vec![45, 60, 75, 85, 90]);
}

#[test]
fn main_typ() {
    assert_eq!(get_set_weights(45, 85, 5), vec![45, 55, 65, 75, 85]);
    assert_eq!(get_set_weights(45, 105, 5), vec![45, 60, 75, 90, 105]);
}

#[test]
fn main_fractional_delta() {
    assert_eq!(get_set_weights(45, 90, 5), vec![45, 60, 75, 85, 90]);
    assert_eq!(get_set_weights(45, 95, 5), vec![45, 60, 75, 90, 95]);
    assert_eq!(get_set_weights(45, 100, 5), vec![45, 60, 75, 90, 100]);
}

#[test]
fn basic() {
    assert_eq!(
        show(&sets_from_weights(&get_set_weights(45, 85, 5))),
        "[45x5x2, 55x4x1, 65x3x1, 75x2x1, 85x5x3]"
    );
}

#[test]
fn ends_are_bar_and_work_set() {
    for &dist in &[Distribution::Linear, Distribution::Sin] {
        for n in 2..=6 {
            let sets = get_sets(45, 185, n, dist);
            assert_eq!(sets.len(), n as usize);
            assert_eq!(sets[0].weight, 45);
            assert_eq!(sets[n as usize - 1].weight, 185);
        }
    }
}

#[test]
fn work_set_short_of_a_tick() {
    assert_eq!(weights(45, 88, 3, Distribution::Sin), vec![45, 75, 85]);
    assert_eq!(weights(45, 88, 2, Distribution::Linear), vec![45, 90]);
}

#[test]
fn single_set_is_the_work_set() {
    assert_eq!(show(&get_sets(45, 85, 1, Distribution::Sin)), "[85x5x3]");
    assert_eq!(show(&get_sets(45, 85, 1, Distribution::Linear)), "[85x5x3]");
}

#[test]
fn sine_over_three_and_five_steps() {
    assert_eq!(weights(45, 145, 6, Distribution::Sin), vec![45, 75, 100, 125, 140, 145]);
    assert_eq!(weights(45, 145, 4, Distribution::Sin), vec![45, 95, 130, 145]);
    assert_eq!(weights(135, 315, 6, Distribution::Sin), vec![135, 190, 240, 280, 305, 315]);
    assert_eq!(weights(45, 225, 3, Distribution::Sin), vec![45, 170, 225]);
}

#[test]
fn linear_over_three_steps() {
    assert_eq!(weights(45, 145, 4, Distribution::Linear), vec![45, 80, 115, 145]);
}

#[test]
fn flat_progression() {
    assert_eq!(weights(45, 45, 4, Distribution::Sin), vec![45, 45, 45, 45]);
    assert_eq!(weights(45, 45, 4, Distribution::Linear), vec![45, 45, 45, 45]);
}

#[test]
fn largest_span() {
    let sets = get_sets(1, MAX_WEIGHT, 6, Distribution::Sin);
    assert_eq!(sets[0].weight, 1);
    assert_eq!(sets[5].weight, MAX_WEIGHT);
    let ws = weights_of(&sets);
    assert!(ws.windows(2).all(|p| p[0] <= p[1]));
}

#[test]
fn same_inputs_same_progression() {
    let a = get_sets(45, 135, 5, Distribution::Sin);
    let b = get_sets(45, 135, 5, Distribution::Sin);
    assert_eq!(a, b);
    assert_eq!(weights_of(&a), vec![45, 75, 105, 125, 135]);
}

#[test]
fn config_validity() {
    let ok = lift::Config { bar: 45, sets: 4, work_set: 135 };
    assert!(ok.is_valid());
    assert!(!lift::Config { bar: 45, sets: 4, work_set: 40 }.is_valid());
    assert!(!lift::Config { bar: 45, sets: 0, work_set: 135 }.is_valid());
    assert!(!lift::Config { bar: 45, sets: 7, work_set: 135 }.is_valid());
    assert!(!lift::Config { bar: 45, sets: 4, work_set: MAX_WEIGHT + 1 }.is_valid());
    assert!(lift::Config { bar: 45, sets: 6, work_set: MAX_WEIGHT }.is_valid());
}
