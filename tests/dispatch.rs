use matmul::grid::launch_coordinates;
use matmul::settings::{
    get_matrix_index, get_output_dimensions, validate_dimensions, BufferLayout, Dimensions, U32x3,
    SHADER_ENTRY_POINT, TILE_M, TILE_N, TILE_SIZE,
};
use matmul::variants::{
    GridComputation, Gpu, Isomorphic, Naive, Tiling1d, Tiling1dLoop, Tiling2dSimd, Workgroup256,
    Workgroup2d,
};

#[test]
fn naive_dispatch_is_one_group_per_element() {
    assert_eq!(Naive.workgroup(), U32x3::new(1, 1, 1));
    assert_eq!(Naive.dispatch_count(3, 5), U32x3::new(15, 1, 1));
    assert!(Naive.dispatch_is_defined(65536, 65535));
    assert!(!Naive.dispatch_is_defined(65536, 65536));
}

#[test]
fn workgroup_256_dispatch_rounds_up_and_caps() {
    assert_eq!(Workgroup256.workgroup(), U32x3::new(256, 1, 1));
    assert_eq!(Workgroup256.dispatch_count(16, 16), U32x3::new(1, 1, 1));
    assert_eq!(Workgroup256.dispatch_count(16, 17), U32x3::new(2, 1, 1));
    assert_eq!(Workgroup256.dispatch_count(1, 1), U32x3::new(1, 1, 1));
    assert_eq!(Workgroup256.dispatch_count(2048, 2048), U32x3::new(16384, 1, 1));
    assert_eq!(Workgroup256.dispatch_count(65536, 65536), U32x3::new(65535, 1, 1));
    assert_eq!(Workgroup256.dispatch_count(u32::MAX, u32::MAX), U32x3::new(65535, 1, 1));
}

#[test]
fn square_variants_dispatch_ceil_of_sixteenths() {
    let expected = U32x3::new(2, 1, 1);
    assert_eq!(Workgroup2d.dispatch_count(17, 16), expected);
    assert_eq!(Tiling1d.dispatch_count(17, 16), expected);
    assert_eq!(Tiling1dLoop.dispatch_count(17, 16), expected);
    assert_eq!(Tiling2dSimd.dispatch_count(17, 16), expected);
    assert_eq!(Isomorphic.dispatch_count(17, 16), expected);
    assert_eq!(Isomorphic.dispatch_count(32, 33), U32x3::new(2, 3, 1));
    assert_eq!(Isomorphic.dispatch_count(u32::MAX, 1), U32x3::new(268435456, 1, 1));
    assert_eq!(Workgroup2d.workgroup(), U32x3::new(16, 16, 1));
    assert_eq!(Isomorphic.workgroup(), U32x3::new(16, 16, 1));
}

#[test]
fn dispatch_is_zero_only_for_empty_outputs() {
    assert_eq!(Naive.dispatch_count(0, 4).x, 0);
    assert_eq!(Workgroup256.dispatch_count(4, 0).x, 0);
    assert_eq!(Isomorphic.dispatch_count(0, 4).x, 0);
    assert_eq!(Isomorphic.dispatch_count(4, 0).y, 0);
    assert_eq!(Workgroup256.dispatch_count(1, 1).x, 1);
    assert_eq!(Tiling1d.dispatch_count(1, 1), U32x3::new(1, 1, 1));
}

#[test]
fn dispatch_is_monotone_and_within_ceiling_on_benchmark_sizes() {
    let sizes = [2u32, 4, 8, 16, 32, 64, 128, 256, 512, 1024, 2048];
    let mut previous = U32x3::new(0, 0, 0);
    for &s in &sizes {
        let d = Tiling2dSimd.dispatch_count(s, s);
        assert!(d.x >= previous.x && d.y >= previous.y);
        assert!(d.x <= 65535 && d.y <= 65535);
        assert!(Workgroup256.dispatch_count(s, s).x <= 65535);
        previous = d;
    }
    assert!(Naive.dispatch_count(255, 257).x <= 65535);
}

#[test]
fn kernel_names_and_entry_point() {
    assert_eq!(Naive.kernel_name(), "naive");
    assert_eq!(Workgroup256.kernel_name(), "workgroup_256");
    assert_eq!(Workgroup2d.kernel_name(), "workgroup_2d");
    assert_eq!(Tiling1d.kernel_name(), "tiling_1d");
    assert_eq!(Tiling1dLoop.kernel_name(), "tiling_1d_loop");
    assert_eq!(Tiling2dSimd.kernel_name(), "tiling_2d");
    assert_eq!(Isomorphic.kernel_name(), "isomorphic");
    assert_eq!(Isomorphic.entry_point(), "matmul");
    assert_eq!(SHADER_ENTRY_POINT, "matmul");
}

#[test]
fn launch_coordinates_cover_output_once() {
    let coords = launch_coordinates(U32x3::new(16, 16, 1), U32x3::new(1, 1, 1), 3, 2);
    assert_eq!(coords, vec![(0, 0), (0, 1), (1, 0), (1, 1), (2, 0), (2, 1)]);
    let coords = launch_coordinates(U32x3::new(2, 2, 1), U32x3::new(2, 2, 1), 3, 3);
    assert_eq!(coords.len(), 9);
    for x in 0..3u32 {
        for y in 0..3u32 {
            assert!(coords.contains(&(x, y)));
        }
    }
    let short = launch_coordinates(U32x3::new(1, 1, 1), U32x3::new(2, 1, 1), 4, 4);
    assert_eq!(short, vec![(0, 0), (1, 0)]);
    assert!(launch_coordinates(U32x3::new(16, 16, 1), U32x3::new(0, 0, 1), 4, 4).is_empty());
}

#[test]
fn dimensions_and_index_helpers() {
    let d = Dimensions::new(2, 3, 4);
    assert_eq!((d.m, d.k, d.n), (2, 3, 4));
    let t: (u32, u32, u32) = d.into();
    assert_eq!(t, (2, 3, 4));
    assert_eq!(Dimensions::from(U32x3::new(7, 8, 9)), Dimensions::new(7, 8, 9));
    assert_eq!(get_matrix_index(2, 3, 5), 13);
    assert_eq!(get_matrix_index(0, 0, 5), 0);
    assert!(validate_dimensions((2, 3), (3, 4)));
    assert!(!validate_dimensions((2, 3), (4, 3)));
    assert_eq!(get_output_dimensions((2, 3), (3, 4)), Some((2, 4)));
    assert_eq!(get_output_dimensions((2, 3), (2, 4)), None);
    assert_eq!((TILE_M, TILE_N, TILE_SIZE), (4, 4, 4));
}

#[test]
fn buffer_layout_slots() {
    assert_eq!(BufferLayout::dimensions(), BufferLayout { binding: 0, readonly: true });
    assert_eq!(BufferLayout::a_matrix(), BufferLayout { binding: 1, readonly: true });
    assert_eq!(BufferLayout::b_matrix(), BufferLayout { binding: 2, readonly: true });
    assert_eq!(BufferLayout::result(), BufferLayout { binding: 3, readonly: false });
}
