use matmul::error::MatrixMultiplyError;
use matmul::gpu::{
    bind_group_entries, bind_group_layout_entries, init_status, pad_and_cast_spirv, readback_fits,
    readback_status,
    BindingKind, BindingSlot, BufferRole, GpuPhase, MatrixMultiplier,
};
use matmul::settings::{Dimensions, U32x3};
use matmul::variants::{Naive, Tiling2dSimd, Workgroup256};

#[test]
fn layout_is_fixed() {
    let entries = bind_group_layout_entries();
    assert_eq!(
        entries,
        vec![
            BindingSlot { binding: 0, kind: BindingKind::Uniform },
            BindingSlot { binding: 1, kind: BindingKind::Storage { read_only: true } },
            BindingSlot { binding: 2, kind: BindingKind::Storage { read_only: true } },
            BindingSlot { binding: 3, kind: BindingKind::Storage { read_only: false } },
        ]
    );
    assert_eq!(
        bind_group_entries(),
        vec![
            (1, BufferRole::AMatrix),
            (2, BufferRole::BMatrix),
            (3, BufferRole::Result),
            (0, BufferRole::Dimensions)
        ]
    );
}

#[test]
fn plan_sizes_buffers_and_dispatch() {
    let mm = MatrixMultiplier::new(Tiling2dSimd, ());
    let plan = mm.plan(5 * 3, 3 * 7, 5, 3, 7).unwrap();
    assert_eq!(plan.dimensions, Dimensions::new(5, 3, 7));
    assert_eq!(plan.dispatch, U32x3::new(1, 1, 1));
    assert_eq!(plan.result_size, 5 * 7 * 4);
    assert_eq!(plan.output_len, 35);
    assert!(readback_fits(&plan, 140));
    assert!(!readback_fits(&plan, 136));

    let naive = MatrixMultiplier::new(Naive, 7u8);
    assert_eq!(naive.resources, 7);
    assert_eq!(naive.plan(4, 4, 2, 2, 2).unwrap().dispatch, U32x3::new(4, 1, 1));
    let linear = MatrixMultiplier::new(Workgroup256, ());
    assert_eq!(linear.plan(64 * 64, 64 * 64, 64, 64, 64).unwrap().dispatch, U32x3::new(16, 1, 1));
}

#[test]
fn plan_rejects_mismatched_lengths() {
    let mm = MatrixMultiplier::new(Tiling2dSimd, ());
    assert_eq!(mm.plan(6, 8, 2, 3, 3), Err(MatrixMultiplyError::DimensionMismatch));
    assert_eq!(mm.plan(6, 9, 2, 3, 4), Err(MatrixMultiplyError::DimensionMismatch));
    assert!(mm.plan(6, 9, 2, 3, 3).is_ok());
}

#[test]
fn readback_and_init_outcomes() {
    assert_eq!(readback_status(true, true), Ok(()));
    assert_eq!(readback_status(false, true), Err(MatrixMultiplyError::GpuDataReceive));
    assert_eq!(readback_status(false, false), Err(MatrixMultiplyError::GpuDataReceive));
    assert_eq!(readback_status(true, false), Err(MatrixMultiplyError::GpuBufferMapping));
    assert_eq!(init_status(true, true, true), Ok(()));
    assert_eq!(init_status(false, false, false), Err(MatrixMultiplyError::GpuInstanceCreation));
    assert_eq!(init_status(true, false, false), Err(MatrixMultiplyError::GpuAdapterRequest));
    assert_eq!(init_status(true, true, false), Err(MatrixMultiplyError::GpuDeviceCreation));
}

#[test]
fn error_kinds_and_messages() {
    assert!(MatrixMultiplyError::GpuAdapterRequest.is_initialization());
    assert!(!MatrixMultiplyError::GpuBufferMapping.is_initialization());
    assert!(!MatrixMultiplyError::DimensionMismatch.is_initialization());
    assert_eq!(MatrixMultiplyError::GpuBufferMapping.message(), "Mapping GPU buffer failed");
    assert_eq!(
        MatrixMultiplyError::GpuAdapterRequest.message(),
        "Failed to find an appropriate GPU adapter"
    );
}

#[test]
fn spirv_bytes_become_little_endian_words() {
    assert_eq!(pad_and_cast_spirv(&vec![0x03, 0x02, 0x23, 0x07]), vec![0x0723_0203]);
    assert_eq!(pad_and_cast_spirv(&vec![1, 0, 0, 0, 0xff, 0x01]), vec![1, 0x01ff]);
    assert_eq!(pad_and_cast_spirv(&vec![]), Vec::<u32>::new());
    assert_eq!(pad_and_cast_spirv(&vec![0xaa]), vec![0xaa]);
}

#[test]
fn multiply_lifecycle_returns_to_ready() {
    let mut mm = MatrixMultiplier::new(Tiling2dSimd, ());
    assert_eq!(mm.phase, GpuPhase::Ready);
    assert_eq!(mm.begin_multiply(6, 8, 2, 3, 3), Err(MatrixMultiplyError::DimensionMismatch));
    assert_eq!(mm.phase, GpuPhase::Ready);
    let plan = mm.begin_multiply(6, 9, 2, 3, 3).unwrap();
    assert_eq!(mm.phase, GpuPhase::Dispatched { plan });
    assert_eq!(plan.result_size, 24);
    assert_eq!(mm.finish_multiply(true, true, 24), Ok(()));
    assert_eq!(mm.phase, GpuPhase::Ready);
    mm.begin_multiply(6, 9, 2, 3, 3).unwrap();
    assert_eq!(mm.finish_multiply(true, false, 24), Err(MatrixMultiplyError::GpuBufferMapping));
    assert_eq!(mm.phase, GpuPhase::Ready);
    mm.begin_multiply(6, 9, 2, 3, 3).unwrap();
    assert_eq!(mm.finish_multiply(false, false, 0), Err(MatrixMultiplyError::GpuDataReceive));
    mm.begin_multiply(6, 9, 2, 3, 3).unwrap();
    assert_eq!(mm.finish_multiply(true, true, 20), Err(MatrixMultiplyError::GpuDataReceive));
    assert_eq!(mm.phase, GpuPhase::Ready);
}
