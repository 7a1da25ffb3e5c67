use terratile::grid::{height_grid_from_samples, DecodeError};
use terratile::resample::resample_grid;

#[test]
fn matching_size_passes_through_unchanged() {
    let g = height_grid_from_samples(3, 2, vec![5, -2, 9, 0, 7, 3]).unwrap();
    let r = resample_grid(&g, 3, 2).unwrap();
    assert_eq!(r.samples, g.samples);
    assert_eq!(r.min, g.min);
    assert_eq!(r.max, g.max);
}

#[test]
fn constant_grid_resamples_to_the_constant() {
    let g = height_grid_from_samples(4, 4, vec![77; 16]).unwrap();
    let r = resample_grid(&g, 9, 5).unwrap();
    assert_eq!(r.width, 9);
    assert_eq!(r.length, 5);
    assert!(r.samples.iter().all(|&s| s == 77));
}

#[test]
fn midpoint_of_two_samples() {
    let g = height_grid_from_samples(2, 1, vec![0, 1024]).unwrap();
    let r = resample_grid(&g, 3, 1).unwrap();
    assert_eq!(r.samples, vec![0, 512, 1024]);
}

#[test]
fn ramp_upsample_exact() {
    let g = height_grid_from_samples(4, 1, vec![0, 300, 600, 900]).unwrap();
    let r = resample_grid(&g, 7, 1).unwrap();
    // Interior cells interpolate the ramp linearly; the edge cells bend
    // toward the clamped border samples.
    assert_eq!(r.samples, vec![0, 131, 300, 450, 600, 768, 900]);
}

#[test]
fn downsample_keeps_corner_samples() {
    let samples: Vec<i64> = (0..25).map(|i| i * 40).collect();
    let g = height_grid_from_samples(5, 5, samples).unwrap();
    let r = resample_grid(&g, 3, 3).unwrap();
    // Target corners sit exactly on source corners.
    assert_eq!(r.samples[0], g.samples[0]);
    assert_eq!(r.samples[2], g.samples[4]);
    assert_eq!(r.samples[6], g.samples[20]);
    assert_eq!(r.samples[8], g.samples[24]);
}

#[test]
fn resampled_values_stay_inside_the_source_extrema() {
    let g = height_grid_from_samples(3, 3, vec![0, 900, 0, 900, -500, 900, 0, 900, 0]).unwrap();
    let r = resample_grid(&g, 11, 11).unwrap();
    assert!(r.samples.iter().all(|&s| g.min <= s && s <= g.max));
}

#[test]
fn bad_target_sizes_are_rejected() {
    let g = height_grid_from_samples(2, 2, vec![1, 2, 3, 4]).unwrap();
    assert_eq!(resample_grid(&g, 0, 5).unwrap_err(), DecodeError::ZeroDimension);
    assert_eq!(resample_grid(&g, 5, 0).unwrap_err(), DecodeError::ZeroDimension);
    assert_eq!(resample_grid(&g, 4097, 5).unwrap_err(), DecodeError::TooLarge);
}
