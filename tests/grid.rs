use physarum::grid::{cell_index, field_len, quantile_rank};
use physarum::util::{is_power_of_two, wrap_index};

// Truncates a position shifted by one period, as sampling a field does.
fn shifted(coord: f32, dim: usize) -> usize {
    (coord + dim as f32) as usize
}

fn index(x: f32, y: f32) -> usize {
    cell_index(shifted(x, 8), shifted(y, 8), 8, 8)
}

#[test]
fn test_grid_new() {
    assert_eq!(field_len(8, 8), Some(64));
    assert_eq!(index(0.5, 0.6), 0);
    assert_eq!(index(1.5, 0.6), 1);
    assert_eq!(index(0.5, 1.6), 8);
    assert_eq!(index(2.5, 0.6), 2);
    assert_eq!(index(2.5, 1.6), 10);
    assert_eq!(index(7.9, 7.9), 63);
    // a position just below the origin wraps to the last row and column
    assert_eq!(index(-0.5, -0.6), 63);
}

#[test]
fn negative_sample_equals_last_cell() {
    assert_eq!(index(-0.5, -0.6), index(7.0, 7.0));
    assert_eq!(cell_index(7, 7, 8, 8), 63);
}

#[test]
fn field_len_rejects_non_powers_of_two() {
    assert_eq!(field_len(5, 5), None);
    assert_eq!(field_len(8, 6), None);
    assert_eq!(field_len(0, 8), None);
    assert_eq!(field_len(1, 1), Some(1));
    assert_eq!(field_len(16, 4), Some(64));
    assert_eq!(field_len(1 << 40, 1 << 40), None);
}

#[test]
fn cell_index_wraps_rectangular_fields() {
    assert_eq!(cell_index(0, 0, 16, 4), 0);
    assert_eq!(cell_index(17, 5, 16, 4), 17);
    assert_eq!(cell_index(15, 3, 16, 4), 63);
    assert_eq!(cell_index(32, 8, 16, 4), 0);
}

#[test]
fn power_of_two_check() {
    assert!(!is_power_of_two(0));
    assert!(is_power_of_two(1));
    assert!(is_power_of_two(2));
    assert!(!is_power_of_two(3));
    assert!(is_power_of_two(1024));
    assert!(!is_power_of_two(1023));
    assert!(is_power_of_two(1 << 63));
    assert!(!is_power_of_two(usize::MAX));
}

#[test]
fn wrap_index_reduces_modulo() {
    assert_eq!(wrap_index(0, 8), 0);
    assert_eq!(wrap_index(8, 8), 0);
    assert_eq!(wrap_index(13, 8), 5);
    assert_eq!(wrap_index(usize::MAX, 1024), 1023);
    assert_eq!(wrap_index(5, 1), 0);
}

#[test]
fn quantile_rank_extremes_and_nearest_rank() {
    assert_eq!(quantile_rank(64, 0, 1), 0);
    assert_eq!(quantile_rank(64, 1, 1), 63);
    assert_eq!(quantile_rank(64, 999, 1000), 63);
    assert_eq!(quantile_rank(10, 1, 2), 5);
    assert_eq!(quantile_rank(10, 1, 3), 4);
    assert_eq!(quantile_rank(1, 1, 2), 0);
}
