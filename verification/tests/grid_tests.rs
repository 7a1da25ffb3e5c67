use terratile::grid::{height_grid_from_samples, DecodeError, MAX_ELEVATION};

#[test]
fn extrema_are_computed_over_samples() {
    let g = height_grid_from_samples(3, 2, vec![5, -2, 9, 0, 7, 3]).unwrap();
    assert_eq!(g.width, 3);
    assert_eq!(g.length, 2);
    assert_eq!(g.min, -2);
    assert_eq!(g.max, 9);
}

#[test]
fn single_sample_grid() {
    let g = height_grid_from_samples(1, 1, vec![42]).unwrap();
    assert_eq!(g.min, 42);
    assert_eq!(g.max, 42);
}

#[test]
fn zero_dimension_is_rejected() {
    assert_eq!(
        height_grid_from_samples(0, 4, vec![]).unwrap_err(),
        DecodeError::ZeroDimension
    );
    assert_eq!(
        height_grid_from_samples(4, 0, vec![]).unwrap_err(),
        DecodeError::ZeroDimension
    );
}

#[test]
fn oversized_dimension_is_rejected() {
    assert_eq!(
        height_grid_from_samples(4097, 1, vec![0; 4097]).unwrap_err(),
        DecodeError::TooLarge
    );
}

#[test]
fn wrong_buffer_length_is_rejected() {
    assert_eq!(
        height_grid_from_samples(2, 2, vec![1, 2, 3]).unwrap_err(),
        DecodeError::LengthMismatch
    );
    assert_eq!(
        height_grid_from_samples(2, 2, vec![1, 2, 3, 4, 5]).unwrap_err(),
        DecodeError::LengthMismatch
    );
}

#[test]
fn out_of_range_sample_is_rejected() {
    assert_eq!(
        height_grid_from_samples(2, 1, vec![0, MAX_ELEVATION + 1]).unwrap_err(),
        DecodeError::OutOfRange
    );
    assert_eq!(
        height_grid_from_samples(2, 1, vec![-MAX_ELEVATION - 1, 0]).unwrap_err(),
        DecodeError::OutOfRange
    );
}

#[test]
fn boundary_samples_are_accepted() {
    let g = height_grid_from_samples(2, 1, vec![MAX_ELEVATION, -MAX_ELEVATION]).unwrap();
    assert_eq!(g.min, -MAX_ELEVATION);
    assert_eq!(g.max, MAX_ELEVATION);
}
