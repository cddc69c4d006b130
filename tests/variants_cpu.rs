use matmul::cpu::{MultiThreadedMatMul, SingleThreadedMatMul};
use matmul::kernel::{block_tile, Cpu};
use matmul::settings::{Dimensions, U32x3};
use matmul::variants::{Tiling1d, Tiling1dLoop, Tiling2dSimd, Workgroup2d};

fn step(acc: i64, x: i64, y: i64) -> i64 {
    acc + x * y
}

fn reference(a: &[i64], b: &[i64], m: usize, k: usize, n: usize) -> Vec<i64> {
    let mut out = vec![0; m * n];
    for r in 0..m {
        for c in 0..n {
            out[r * n + c] = (0..k).map(|i| a[r * k + i] * b[i * n + c]).sum();
        }
    }
    out
}

fn sample(len: usize, seed: i64) -> Vec<i64> {
    (0..len as i64).map(|i| (i * 5 + seed) % 13 - 6).collect()
}

#[test]
fn workgroup_2d_kernel_matches_reference_on_any_shape() {
    for &(m, k, n) in &[(1u32, 1u32, 1u32), (7, 3, 2), (2, 5, 9), (17, 4, 1)] {
        let a = sample((m * k) as usize, 1);
        let b = sample((k * n) as usize, 2);
        let expected = reference(&a, &b, m as usize, k as usize, n as usize);
        let single = SingleThreadedMatMul::new(Workgroup2d).multiply(&a, &b, m, k, n, 0, step).unwrap();
        let multi = MultiThreadedMatMul::new(Workgroup2d).multiply(&a, &b, m, k, n, 0, step).unwrap();
        assert_eq!(single, expected);
        assert_eq!(multi, expected);
    }
}

#[test]
fn row_tile_kernels_match_reference_on_square_shapes() {
    for &s in &[1u32, 3, 4, 5, 9, 16, 21] {
        let a = sample((s * 3) as usize, 3);
        let b = sample((3 * s) as usize, 4);
        let expected = reference(&a, &b, s as usize, 3, s as usize);
        let one = SingleThreadedMatMul::new(Tiling1d).multiply(&a, &b, s, 3, s, 0, step).unwrap();
        let looped = MultiThreadedMatMul::new(Tiling1dLoop).multiply(&a, &b, s, 3, s, 0, step).unwrap();
        assert_eq!(one, expected);
        assert_eq!(looped, expected);
    }
}

#[test]
fn tiling_2d_kernel_matches_reference_five_by_five() {
    let a = sample(25, 5);
    let b = sample(25, 6);
    let expected = reference(&a, &b, 5, 5, 5);
    let single = SingleThreadedMatMul::new(Tiling2dSimd).multiply(&a, &b, 5, 5, 5, 0, step).unwrap();
    let multi = MultiThreadedMatMul::new(Tiling2dSimd).multiply(&a, &b, 5, 5, 5, 0, step).unwrap();
    assert_eq!(single, expected);
    assert_eq!(multi, expected);
}

#[test]
fn every_kernel_matches_reference_on_lopsided_shapes() {
    for &(m, k, n) in &[(3u32, 1u32, 2u32), (1, 1, 8), (8, 1, 1), (2, 3, 19), (21, 2, 3)] {
        let a = sample((m * k) as usize, 7);
        let b = sample((k * n) as usize, 8);
        let expected = reference(&a, &b, m as usize, k as usize, n as usize);
        assert_eq!(SingleThreadedMatMul::new(Tiling1d).multiply(&a, &b, m, k, n, 0, step).unwrap(), expected);
        assert_eq!(MultiThreadedMatMul::new(Tiling1dLoop).multiply(&a, &b, m, k, n, 0, step).unwrap(), expected);
        assert_eq!(SingleThreadedMatMul::new(Tiling2dSimd).multiply(&a, &b, m, k, n, 0, step).unwrap(), expected);
        assert_eq!(MultiThreadedMatMul::new(Workgroup2d).multiply(&a, &b, m, k, n, 0, step).unwrap(), expected);
    }
    let a: Vec<i64> = vec![1, 2, 3];
    let b: Vec<i64> = vec![10, 20];
    let out = SingleThreadedMatMul::new(Tiling1d).multiply(&a, &b, 3, 1, 2, 0, step).unwrap();
    assert_eq!(out, vec![10, 20, 20, 40, 30, 60]);
}

#[test]
fn row_tile_invocation_writes_four_columns() {
    let a = sample(4 * 2, 1);
    let b = sample(2 * 10, 2);
    let d = Dimensions::new(4, 2, 10);
    let expected = reference(&a, &b, 4, 2, 10);
    let cells = Tiling1d.tile(U32x3::new(3, 2, 0), d, &a, &b, 0, &step);
    let offsets: Vec<usize> = cells.iter().map(|c| c.0).collect();
    assert_eq!(offsets, vec![38, 39]);
    for (idx, v) in cells {
        assert_eq!(v, expected[idx]);
    }
    let single = Workgroup2d.tile(U32x3::new(3, 9, 0), d, &a, &b, 0, &step);
    assert_eq!(single, vec![(39, expected[39])]);
    assert!(Workgroup2d.tile(U32x3::new(4, 0, 0), d, &a, &b, 0, &step).is_empty());
}

#[test]
fn block_tile_clips_to_output() {
    let a = sample(3 * 2, 1);
    let b = sample(2 * 3, 2);
    let d = Dimensions::new(3, 2, 3);
    let expected = reference(&a, &b, 3, 2, 3);
    let cells = block_tile(1, 1, 4, 4, d, &a, &b, 0, &step);
    assert_eq!(cells, vec![(4, expected[4]), (5, expected[5]), (7, expected[7]), (8, expected[8])]);
    assert!(block_tile(3, 0, 2, 2, d, &a, &b, 0, &step).is_empty());
}
