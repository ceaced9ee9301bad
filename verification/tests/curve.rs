use staircase2080::arith::{pow2_usize, pow5};
use staircase2080::encoder::{highest_power, index_to_x, x_seq};
use staircase2080::evaluator::{analytical_c, sample_points, total_points};

#[test]
fn highest_power_edge_cases() {
    assert_eq!(highest_power(0), (0, 0));
    assert_eq!(highest_power(1), (0, 1));
    assert_eq!(highest_power(2), (1, 2));
    assert_eq!(highest_power(3), (1, 2));
    assert_eq!(highest_power(6), (2, 4));
    assert_eq!(highest_power(7), (2, 4));
    assert_eq!(highest_power(8), (3, 8));
    assert_eq!(highest_power(134217728), (27, 134217728));
}

#[test]
fn pow5_exact_values() {
    assert_eq!(pow5(0), 1);
    assert_eq!(pow5(1), 5);
    assert_eq!(pow5(2), 25);
    assert_eq!(pow5(22), 2384185791015625);
    assert_eq!(pow5(27), 7450580596923828125);
}

#[test]
fn pow2_exact_values() {
    assert_eq!(pow2_usize(0), 1);
    assert_eq!(pow2_usize(5), 32);
    assert_eq!(pow2_usize(27), 134217728);
}

#[test]
fn total_points_values() {
    assert_eq!(total_points(1), 2);
    assert_eq!(total_points(2), 3);
    assert_eq!(total_points(3), 5);
    assert_eq!(total_points(5), 17);
    assert_eq!(total_points(23), 4194305);
}

#[test]
fn x_seq_small_values() {
    // the binary decomposition re-read on the 4:5 scale
    let expected: [u64; 9] = [0, 1, 5, 9, 25, 29, 45, 61, 125];
    for (i, want) in expected.iter().enumerate() {
        assert_eq!(x_seq(i), *want);
    }
}

#[test]
fn base_case_two_points() {
    // n = 1: the only two sample points are (0, 0) and (1, 1)
    let points = sample_points(1);
    assert_eq!(points.len(), 2);
    assert_eq!(points[0], (0, 0));
    assert_eq!(points[1], (1, 1));
    let (num0, den0) = index_to_x(0, 1);
    let (num1, den1) = index_to_x(1, 1);
    assert_eq!((num0, den0), (0, 1));
    assert_eq!((num1, den1), (1, 1));
}

#[test]
fn order_three_exact_sequence() {
    // n = 3: the five coordinates as exact fractions over 5^2 = 25
    let expected_numerators: [u64; 5] = [0, 1, 5, 9, 25];
    for (i, want) in expected_numerators.iter().enumerate() {
        let (num, den) = index_to_x(i, 3);
        assert_eq!(num, *want);
        assert_eq!(den, 25);
    }
}

#[test]
fn coordinates_strictly_increase() {
    // distinct indices never encode to the same coordinate
    for n in 1..=8usize {
        let mut prev: Option<u64> = None;
        for i in 0..total_points(n) {
            let (num, _) = index_to_x(i, n);
            if let Some(p) = prev {
                assert!(p < num, "tie or inversion at n={}, i={}", n, i);
            }
            prev = Some(num);
        }
    }
}

#[test]
fn boundary_exactness() {
    // index 0 maps to exactly 0 and the last index to exactly 1
    for n in 1..=10usize {
        let den = pow5((n as u32) - 1);
        let last = total_points(n) - 1;
        assert_eq!(index_to_x(0, n), (0, den));
        assert_eq!(index_to_x(last, n), (den, den));
    }
    let den23 = pow5(22);
    assert_eq!(index_to_x(total_points(23) - 1, 23), (den23, den23));
}

#[test]
fn evaluator_boundary() {
    // x = 0 yields y = 0 and x = 1 yields y = 1
    for n in 1..=10usize {
        let den = pow5((n as u32) - 1);
        assert_eq!(analytical_c(n, 0), 0);
        assert_eq!(analytical_c(n, den), den);
    }
}

#[test]
fn point_symmetry_at_boundaries() {
    // complementing the input complements the value at the two ends
    for n in 1..=10usize {
        let den = pow5((n as u32) - 1);
        assert_eq!(analytical_c(n, 0), den - analytical_c(n, den - 0));
        assert_eq!(analytical_c(n, den), den - analytical_c(n, den - den));
    }
}

#[test]
fn inversion_consistency() {
    // at a grid coordinate the search finds the index itself, so the
    // value is the complemented coordinate of the mirrored index
    for n in 1..=8usize {
        let den = pow5((n as u32) - 1);
        let last = total_points(n) - 1;
        for i in 0..=last {
            let (x_num, _) = index_to_x(i, n);
            assert_eq!(analytical_c(n, x_num), den - x_seq(last - i));
        }
    }
}

#[test]
fn evaluator_off_grid_queries() {
    // n = 3, grid numerators 0, 1, 5, 9, 25 over 25: a query between two
    // grid coordinates takes the value of the step it lands on
    assert_eq!(analytical_c(3, 2), 16); // in [1, 5): found index 1, y = 25 - x_seq(3)
    assert_eq!(analytical_c(3, 4), 16);
    assert_eq!(analytical_c(3, 5), 20); // exactly on the grid: found index 2
    assert_eq!(analytical_c(3, 7), 20); // in [5, 9): found index 2, y = 25 - x_seq(2)
    assert_eq!(analytical_c(3, 10), 24); // in [9, 25): found index 3, y = 25 - x_seq(1)
    assert_eq!(analytical_c(3, 24), 24);
}

#[test]
fn sample_points_order_three() {
    let points = sample_points(3);
    let expected: [(u64, u64); 5] = [(0, 0), (1, 16), (5, 20), (9, 24), (25, 25)];
    assert_eq!(points.len(), 5);
    for (got, want) in points.iter().zip(expected.iter()) {
        assert_eq!(got, want);
    }
}

#[test]
fn normalized_samples_stay_in_unit_interval() {
    // the driver divides by the denominator; the floats it gets are
    // monotone and within [0, 1] on both axes
    let n = 6usize;
    let den = pow5((n as u32) - 1) as f64;
    let mut prev_x = -1.0f64;
    for (x_num, y_num) in sample_points(n) {
        let x = x_num as f64 / den;
        let y = y_num as f64 / den;
        assert!((0.0..=1.0).contains(&x));
        assert!((0.0..=1.0).contains(&y));
        assert!(prev_x < x);
        prev_x = x;
    }
}

#[test]
fn largest_supported_order() {
    // n = 28 is the last order whose arithmetic fits in a u64
    let n = 28usize;
    let den = pow5(27);
    let last = total_points(n) - 1;
    assert_eq!(last, 134217728);
    assert_eq!(x_seq(last), den);
    assert_eq!(analytical_c(n, 0), 0);
    assert_eq!(analytical_c(n, den), den);
    assert_eq!(analytical_c(n, 1), den - x_seq(last - 1));
}
