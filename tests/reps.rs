use lift::{get_plates, get_reps, get_sub_sets};

fn plates_in_units(weight: u32) -> Vec<f64> {
    get_plates(weight)
        .unwrap()
        .iter()
        .map(|&p| p as f64 / 2.0)
        .collect()
}

#[test]
fn lib_min() {
    assert_eq!(get_reps(0, 5), 5);
    assert_eq!(get_sub_sets(0, 5), 2);
    assert_eq!(plates_in_units(5), vec!(2.5));
}

#[test]
fn lib_mid_nominal() {
    assert_eq!(get_reps(1, 5), 4);
    assert_eq!(get_reps(2, 5), 3);
    assert_eq!(get_reps(3, 5), 2);
    assert_eq!(get_reps(4, 6), 1);
}

#[test]
fn lib_mid_min() {
    assert_eq!(get_reps(5, 7), 1);
    assert_eq!(get_reps(5, 9), 1);
}

#[test]
fn lib_max() {
    assert_eq!(get_reps(4, 5), 5);
    assert_eq!(get_sub_sets(4, 5), 3);
    assert_eq!(get_sub_sets(0, 1), 3);
    assert_eq!(plates_in_units(255), vec!(45.0, 35.0, 25.0, 10.0, 5.0, 5.0, 2.5));
}

#[test]
fn lib_mid() {
    assert_eq!(get_sub_sets(3, 5), 1);
    assert_eq!(plates_in_units(90), vec!(45.0));
    assert_eq!(plates_in_units(30), vec!(10.0, 5.0));
}

#[test]
fn main_min() {
    assert_eq!(get_reps(0, 5), 5);
    assert_eq!(get_sub_sets(0, 5), 2);
    assert_eq!(plates_in_units(5), vec!(2.5));
}

#[test]
fn main_mid_nominal() {
    assert_eq!(get_reps(1, 5), 4);
    assert_eq!(get_reps(2, 5), 3);
    assert_eq!(get_reps(3, 5), 2);
    assert_eq!(get_reps(4, 6), 1);
}

#[test]
fn main_mid_min() {
    assert_eq!(get_reps(5, 7), 1);
    assert_eq!(get_reps(5, 9), 1);
}

#[test]
fn main_max() {
    assert_eq!(get_reps(4, 5), 5);
    assert_eq!(get_sub_sets(4, 5), 3);
    assert_eq!(get_sub_sets(0, 1), 3);
    assert_eq!(plates_in_units(255), vec!(45.0, 35.0, 25.0, 10.0, 5.0, 5.0, 2.5));
}

#[test]
fn main_mid() {
    assert_eq!(get_sub_sets(3, 5), 1);
    assert_eq!(plates_in_units(90), vec!(45.0));
    assert_eq!(plates_in_units(30), vec!(10.0, 5.0));
}

#[test]
fn ends_of_every_progression() {
    for total in 2..=9 {
        assert_eq!(get_reps(total - 1, total), 5);
        assert_eq!(get_sub_sets(total - 1, total), 3);
        assert_eq!(get_sub_sets(0, total), 2);
    }
    assert_eq!(get_reps(0, 1), 5);
}
