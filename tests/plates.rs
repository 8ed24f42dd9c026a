use lift::{get_plates, PlateError};

#[test]
fn no_load_needs_no_plates() {
    assert_eq!(get_plates(0), Ok(vec![]));
}

#[test]
fn plates_in_half_units() {
    assert_eq!(get_plates(5), Ok(vec![5]));
    assert_eq!(get_plates(30), Ok(vec![20, 10]));
    assert_eq!(get_plates(120), Ok(vec![90, 20, 10]));
    assert_eq!(get_plates(255), Ok(vec![90, 70, 50, 20, 10, 10, 5]));
}

#[test]
fn every_representable_load_is_met() {
    for w in (0..=255u32).step_by(5) {
        let plates = get_plates(w).unwrap();
        assert_eq!(plates.iter().sum::<u32>(), w);
    }
}

#[test]
fn last_plate_too_heavy() {
    assert_eq!(get_plates(4), Err(PlateError::ExceedsTarget));
    assert_eq!(get_plates(1), Err(PlateError::ExceedsTarget));
    assert_eq!(get_plates(12), Err(PlateError::ExceedsTarget));
}

#[test]
fn out_of_plates() {
    assert_eq!(get_plates(6), Err(PlateError::NoExactSolution));
    assert_eq!(get_plates(301), Err(PlateError::NoExactSolution));
    assert_eq!(get_plates(u32::MAX), Err(PlateError::NoExactSolution));
}

#[test]
fn same_load_same_plates() {
    assert_eq!(get_plates(170), get_plates(170));
    assert_eq!(get_plates(170), Ok(vec![90, 70, 10]));
}
