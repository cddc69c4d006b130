use matmul::cpu::{MultiThreadedMatMul, SingleThreadedMatMul};
use matmul::error::MatrixMultiplyError;
use matmul::kernel::{dot, scatter, Cpu};
use matmul::oracle::verify_results;
use matmul::settings::{Dimensions, U32x3};
use matmul::variants::Isomorphic;

fn fma(acc: f32, x: f32, y: f32) -> f32 {
    acc + x * y
}

fn reference(a: &[f32], b: &[f32], m: usize, k: usize, n: usize) -> Vec<f32> {
    let mut out = vec![0.0f32; m * n];
    for r in 0..m {
        for c in 0..n {
            let mut s = 0.0f32;
            for i in 0..k {
                s += a[r * k + i] * b[i * n + c];
            }
            out[r * n + c] = s;
        }
    }
    out
}

fn sample(len: usize, seed: u32) -> Vec<f32> {
    (0..len).map(|i| ((i as u32 * 7 + seed) % 11) as f32 - 5.0).collect()
}

#[test]
fn test_single_threaded_matmul_2x1x1() {
    let m = 2;
    let k = 1;
    let n = 1;

    let a = vec![1.0, 2.0];
    let b = vec![3.0];

    let expected = vec![3.0, 6.0];

    let variant = Isomorphic;
    let matrix_multiplier = SingleThreadedMatMul::new(variant);

    let result = matrix_multiplier.multiply(&a, &b, m, k, n, 0.0, fma).unwrap();

    assert_eq!(result, expected);
}

#[test]
fn test_single_threaded_matmul_4x4() {
    let m = 4;
    let k = 4;
    let n = 4;

    let a = vec![
        1.0, 2.0, 3.0, 4.0, 5.0, 6.0, 7.0, 8.0, 9.0, 10.0, 11.0, 12.0, 13.0, 14.0, 15.0, 16.0,
    ];

    let b = vec![
        17.0, 18.0, 19.0, 20.0, 21.0, 22.0, 23.0, 24.0, 25.0, 26.0, 27.0, 28.0, 29.0, 30.0,
        31.0, 32.0,
    ];

    let expected = vec![
        250.0, 260.0, 270.0, 280.0, 618.0, 644.0, 670.0, 696.0, 986.0, 1028.0, 1070.0, 1112.0,
        1354.0, 1412.0, 1470.0, 1528.0,
    ];

    let variant = Isomorphic;
    let matrix_multiplier = SingleThreadedMatMul::new(variant);

    let result = matrix_multiplier.multiply(&a, &b, m, k, n, 0.0, fma).unwrap();

    assert_eq!(result, expected);
}

#[test]
fn test_multithreaded_matmul_2x1x1() {
    let m = 2;
    let k = 1;
    let n = 1;

    let a = vec![1.0, 2.0];
    let b = vec![3.0];

    let expected = vec![3.0, 6.0];

    let variant = Isomorphic;
    let matrix_multiplier = MultiThreadedMatMul::new(variant);

    let result = matrix_multiplier.multiply(&a, &b, m, k, n, 0.0, fma).unwrap();

    assert_eq!(result, expected);
}

#[test]
fn multithreaded_matmul_4x4() {
    let a: Vec<f32> = (1..=16).map(|v| v as f32).collect();
    let b: Vec<f32> = (17..=32).map(|v| v as f32).collect();
    let expected = vec![
        250.0, 260.0, 270.0, 280.0, 618.0, 644.0, 670.0, 696.0, 986.0, 1028.0, 1070.0, 1112.0,
        1354.0, 1412.0, 1470.0, 1528.0,
    ];
    let result = MultiThreadedMatMul::new(Isomorphic).multiply(&a, &b, 4, 4, 4, 0.0, fma).unwrap();
    assert_eq!(result, expected);
}

#[test]
fn integer_elements_give_exact_products() {
    let a: Vec<i64> = (1..=16).collect();
    let b: Vec<i64> = (17..=32).collect();
    let expected: Vec<i64> = vec![250, 260, 270, 280, 618, 644, 670, 696, 986, 1028, 1070, 1112, 1354, 1412, 1470, 1528];
    let step = |acc: i64, x: i64, y: i64| acc + x * y;
    let single = SingleThreadedMatMul::new(Isomorphic).multiply(&a, &b, 4, 4, 4, 0, step).unwrap();
    let multi = MultiThreadedMatMul::new(Isomorphic).multiply(&a, &b, 4, 4, 4, 0, step).unwrap();
    assert_eq!(single, expected);
    assert_eq!(multi, expected);
}

#[test]
fn tile_boundary_five_by_five_matches_reference() {
    let (m, k, n) = (5usize, 3usize, 5usize);
    let a = sample(m * k, 1);
    let b = sample(k * n, 4);
    let expected = reference(&a, &b, m, k, n);
    let single = SingleThreadedMatMul::new(Isomorphic).multiply(&a, &b, 5, 3, 5, 0.0, fma).unwrap();
    let multi = MultiThreadedMatMul::new(Isomorphic).multiply(&a, &b, 5, 3, 5, 0.0, fma).unwrap();
    assert_eq!(single.len(), 25);
    for i in 0..25 {
        assert!((single[i] - expected[i]).abs() < 1e-3);
        assert!((multi[i] - expected[i]).abs() < 1e-3);
    }
}

#[test]
fn all_backends_agree_with_reference_on_odd_shapes() {
    for &(m, k, n) in &[(3u32, 7u32, 5u32), (17, 4, 19), (6, 1, 9), (33, 2, 31)] {
        let a = sample((m * k) as usize, m);
        let b = sample((k * n) as usize, n);
        let expected = reference(&a, &b, m as usize, k as usize, n as usize);
        let single = SingleThreadedMatMul::new(Isomorphic).multiply(&a, &b, m, k, n, 0.0, fma).unwrap();
        let multi = MultiThreadedMatMul::new(Isomorphic).multiply(&a, &b, m, k, n, 0.0, fma).unwrap();
        assert_eq!(single.len(), (m * n) as usize);
        assert_eq!(multi.len(), (m * n) as usize);
        for i in 0..expected.len() {
            assert!((single[i] - expected[i]).abs() < 1e-3);
            assert!((multi[i] - expected[i]).abs() < 1e-3);
        }
        assert_eq!(single, multi);
    }
}

#[test]
fn multiply_twice_gives_identical_output() {
    let a = sample(6 * 5, 2);
    let b = sample(5 * 7, 3);
    let first = SingleThreadedMatMul::new(Isomorphic).multiply(&a, &b, 6, 5, 7, 0.0, fma).unwrap();
    let second = SingleThreadedMatMul::new(Isomorphic).multiply(&a, &b, 6, 5, 7, 0.0, fma).unwrap();
    let driver = MultiThreadedMatMul::new(Isomorphic);
    let third = driver.multiply(&a, &b, 6, 5, 7, 0.0, fma).unwrap();
    let fourth = driver.multiply(&a, &b, 6, 5, 7, 0.0, fma).unwrap();
    assert_eq!(first, second);
    assert_eq!(third, fourth);
    assert_eq!(first, third);
}

#[test]
fn dimension_mismatch_is_rejected() {
    let a = vec![1.0f32; 6];
    let b = vec![1.0f32; 8];
    let single = SingleThreadedMatMul::new(Isomorphic).multiply(&a, &b, 2, 3, 3, 0.0, fma);
    assert_eq!(single, Err(MatrixMultiplyError::DimensionMismatch));
    let multi = MultiThreadedMatMul::new(Isomorphic).multiply(&a, &b, 2, 3, 3, 0.0, fma);
    assert_eq!(multi, Err(MatrixMultiplyError::DimensionMismatch));
    let short_a = SingleThreadedMatMul::new(Isomorphic).multiply(&a, &b, 3, 3, 2, 0.0, fma);
    assert!(short_a.is_err());
}

#[test]
fn empty_shapes_give_empty_output() {
    let a: Vec<f32> = vec![];
    let b = vec![1.0f32; 3];
    let result = SingleThreadedMatMul::new(Isomorphic).multiply(&a, &b, 0, 1, 3, 0.0, fma).unwrap();
    assert!(result.is_empty());
    let a = vec![1.0f32; 2];
    let b: Vec<f32> = vec![];
    let result = MultiThreadedMatMul::new(Isomorphic).multiply(&a, &b, 2, 1, 0, 0.0, fma).unwrap();
    assert!(result.is_empty());
}

#[test]
fn zero_inner_dimension_gives_zeros() {
    let a: Vec<f32> = vec![];
    let b: Vec<f32> = vec![];
    let result = SingleThreadedMatMul::new(Isomorphic).multiply(&a, &b, 2, 0, 3, 0.0, fma).unwrap();
    assert_eq!(result, vec![0.0; 6]);
}

#[test]
fn tall_output_is_fully_computed() {
    let a: Vec<f32> = (1..=8).map(|v| v as f32).collect();
    let b = vec![2.0f32];
    let result = SingleThreadedMatMul::new(Isomorphic).multiply(&a, &b, 8, 1, 1, 0.0, fma).unwrap();
    assert_eq!(result, vec![2.0, 4.0, 6.0, 8.0, 10.0, 12.0, 14.0, 16.0]);
    let result = MultiThreadedMatMul::new(Isomorphic).multiply(&a, &b, 8, 1, 1, 0.0, fma).unwrap();
    assert_eq!(result, vec![2.0, 4.0, 6.0, 8.0, 10.0, 12.0, 14.0, 16.0]);
}

#[test]
fn wide_output_is_fully_computed() {
    let a = vec![1.0f32];
    let b = vec![1.0f32; 8];
    let single = SingleThreadedMatMul::new(Isomorphic).multiply(&a, &b, 1, 1, 8, 0.0, fma).unwrap();
    let multi = MultiThreadedMatMul::new(Isomorphic).multiply(&a, &b, 1, 1, 8, 0.0, fma).unwrap();
    assert_eq!(single, vec![1.0; 8]);
    assert_eq!(multi, vec![1.0; 8]);
}

#[test]
fn dot_of_row_and_column() {
    let a = vec![1.0f32, 2.0, 3.0, 4.0];
    let b = vec![5.0f32, 6.0, 7.0, 8.0];
    let d = Dimensions::new(2, 2, 2);
    assert_eq!(dot(&a, &b, d, 1, 0, 0.0, &fma), 3.0 * 5.0 + 4.0 * 7.0);
    assert_eq!(dot(&a, &b, d, 0, 1, 0.0, &fma), 1.0 * 6.0 + 2.0 * 8.0);
}

#[test]
fn tile_covers_its_four_by_four_block() {
    let a: Vec<f32> = (0..36).map(|v| v as f32).collect();
    let b: Vec<f32> = (0..36).map(|v| (v % 5) as f32).collect();
    let d = Dimensions::new(6, 6, 6);
    let cells = Isomorphic.tile(U32x3::new(1, 0, 0), d, &a, &b, 0.0, &fma);
    let mut offsets: Vec<usize> = cells.iter().map(|c| c.0).collect();
    offsets.sort();
    assert_eq!(offsets, vec![24, 25, 26, 27, 30, 31, 32, 33]);
    let expected = reference(&a, &b, 6, 6, 6);
    for (idx, v) in cells {
        assert_eq!(v, expected[idx]);
    }
}

#[test]
fn call_writes_only_covered_cells() {
    let a = vec![1.0f32; 25];
    let b = vec![1.0f32; 25];
    let d = Dimensions::new(5, 5, 5);
    let mut results = vec![-1.0f32; 25];
    Isomorphic.call(U32x3::new(1, 1, 1), d, &a, &b, &mut results, 0.0, &fma);
    assert_eq!(results[4 * 5 + 4], 5.0);
    for idx in 0..24 {
        assert_eq!(results[idx], -1.0);
    }
}

#[test]
fn scatter_writes_entries_in_order() {
    let mut results = vec![0u32; 4];
    scatter(&mut results, &vec![(1usize, 7u32), (3, 9), (1, 8)]);
    assert_eq!(results, vec![0, 8, 0, 9]);
}

#[test]
fn verify_results_accepts_correct_corner() {
    let a = vec![1.0f32, 2.0, 3.0, 4.0];
    let b = vec![5.0f32, 6.0, 7.0, 8.0];
    let result = reference(&a, &b, 2, 2, 2);
    let close = |x: f32, y: f32| (x - y).abs() < 1e-3;
    assert_eq!(verify_results(&a, &b, &result, 2, 2, 2, 0.0, fma, close), Ok(()));
}

#[test]
fn verify_results_names_first_mismatch() {
    let a = vec![1.0f32, 2.0, 3.0, 4.0, 5.0, 6.0, 7.0, 8.0, 9.0];
    let b = a.clone();
    let mut result = reference(&a, &b, 3, 3, 3);
    result[1 * 3 + 0] += 1.0;
    result[2 * 3 + 2] += 1.0;
    let close = |x: f32, y: f32| (x - y).abs() < 1e-3;
    assert_eq!(verify_results(&a, &b, &result, 3, 3, 3, 0.0, fma, close), Err((1, 0)));
    let mut outside = reference(&a, &b, 3, 3, 3);
    outside[2 * 3 + 2] += 1.0;
    assert_eq!(verify_results(&a, &b, &outside, 3, 3, 3, 0.0, fma, close), Ok(()));
}
