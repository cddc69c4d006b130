//! Failures of construction and of a multiply.
use vstd::prelude::*;

verus! {

/// Errors that can happen for matrix multiply on the CPU or GPU.
#[derive(Copy, Clone, Debug, PartialEq, Eq, Structural)]
pub enum MatrixMultiplyError {
    /// No GPU instance could be created.
    GpuInstanceCreation,
    /// No suitable GPU adapter was found.
    GpuAdapterRequest,
    /// The GPU device and queue could not be created.
    GpuDeviceCreation,
    /// The result never came back from the GPU.
    GpuDataReceive,
    /// The staging buffer could not be mapped for reading.
    GpuBufferMapping,
    /// The shared result could not be locked.
    CpuLockError,
    /// The input lengths do not match the shape `m × k` by `k × n`.
    DimensionMismatch,
}

impl MatrixMultiplyError {
    /// Whether the error ends the instance (construction) rather than one multiply.
    pub open spec fn spec_is_initialization(self) -> bool {
        self is GpuInstanceCreation || self is GpuAdapterRequest || self is GpuDeviceCreation
    }

    /// Whether the error ends the instance (construction) rather than one multiply.
    pub fn is_initialization(&self) -> (r: bool)
        ensures
            r == self.spec_is_initialization(),
    {
        match self {
            MatrixMultiplyError::GpuInstanceCreation => true,
            MatrixMultiplyError::GpuAdapterRequest => true,
            MatrixMultiplyError::GpuDeviceCreation => true,
            _ => false,
        }
    }

    /// A sentence that describes the error.
    pub open spec fn spec_message(self) -> Seq<char> {
        match self {
            MatrixMultiplyError::GpuInstanceCreation => "Failed to initialize GPU instance"@,
            MatrixMultiplyError::GpuAdapterRequest => "Failed to find an appropriate GPU adapter"@,
            MatrixMultiplyError::GpuDeviceCreation => "Failed to create GPU device and queue"@,
            MatrixMultiplyError::GpuDataReceive => "Failed to receive data from the GPU"@,
            MatrixMultiplyError::GpuBufferMapping => "Mapping GPU buffer failed"@,
            MatrixMultiplyError::CpuLockError => "Failed to acquire a lock on the result vector"@,
            MatrixMultiplyError::DimensionMismatch => "Matrix lengths do not match the dimensions"@,
        }
    }

    /// A sentence that describes the error.
    pub fn message(&self) -> (r: &'static str)
        ensures
            r@ == self.spec_message(),
    {
        match self {
            MatrixMultiplyError::GpuInstanceCreation => "Failed to initialize GPU instance",
            MatrixMultiplyError::GpuAdapterRequest => "Failed to find an appropriate GPU adapter",
            MatrixMultiplyError::GpuDeviceCreation => "Failed to create GPU device and queue",
            MatrixMultiplyError::GpuDataReceive => "Failed to receive data from the GPU",
            MatrixMultiplyError::GpuBufferMapping => "Mapping GPU buffer failed",
            MatrixMultiplyError::CpuLockError => "Failed to acquire a lock on the result vector",
            MatrixMultiplyError::DimensionMismatch => "Matrix lengths do not match the dimensions",
        }
    }
}

} // verus!
