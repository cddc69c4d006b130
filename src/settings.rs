//! Matrix shapes, tiling constants and the fixed binding layout.
use vstd::prelude::*;

verus! {

/// Shape of one multiplication: `A` is `m × k`, `B` is `k × n`, the result is `m × n`.
#[derive(Copy, Clone, Debug, PartialEq, Eq, Structural)]
pub struct Dimensions {
    pub m: u32,
    pub k: u32,
    pub n: u32,
}

/// Three unsigned components: a workgroup size, a dispatch count or a global invocation id.
#[derive(Copy, Clone, Debug, PartialEq, Eq, Structural)]
pub struct U32x3 {
    pub x: u32,
    pub y: u32,
    pub z: u32,
}

impl U32x3 {
    pub fn new(x: u32, y: u32, z: u32) -> (r: Self)
        ensures
            r == (U32x3 { x, y, z }),
    {
        U32x3 { x, y, z }
    }
}

impl Dimensions {
    pub fn new(m: u32, k: u32, n: u32) -> (r: Self)
        ensures
            r == (Dimensions { m, k, n }),
    {
        Dimensions { m, k, n }
    }
}

impl From<U32x3> for Dimensions {
    fn from(v: U32x3) -> (r: Dimensions) {
        Dimensions { m: v.x, k: v.y, n: v.z }
    }
}

impl vstd::std_specs::convert::FromSpecImpl<U32x3> for Dimensions {
    open spec fn obeys_from_spec() -> bool {
        true
    }

    open spec fn from_spec(v: U32x3) -> Dimensions {
        Dimensions { m: v.x, k: v.y, n: v.z }
    }
}

impl From<Dimensions> for (u32, u32, u32) {
    fn from(d: Dimensions) -> (r: (u32, u32, u32)) {
        (d.m, d.k, d.n)
    }
}

impl vstd::std_specs::convert::FromSpecImpl<Dimensions> for (u32, u32, u32) {
    open spec fn obeys_from_spec() -> bool {
        true
    }

    open spec fn from_spec(d: Dimensions) -> (u32, u32, u32) {
        (d.m, d.k, d.n)
    }
}

/// Rows of the output tile that one invocation of a two-dimensional tiled kernel computes.
pub const TILE_M: u32 = 4;

/// Columns of the output tile that one invocation of a two-dimensional tiled kernel computes.
pub const TILE_N: u32 = 4;

/// Width of the row tile that one invocation of a one-dimensional tiled kernel computes.
pub const TILE_SIZE: u32 = 4;

/// Name under which the kernel is found inside a compiled shader module.
pub const SHADER_ENTRY_POINT: &'static str = "matmul";

/// One binding slot of the fixed layout shared by every GPU variant.
#[derive(Copy, Clone, Debug, PartialEq, Eq, Structural)]
pub struct BufferLayout {
    pub binding: u32,
    pub readonly: bool,
}

impl BufferLayout {
    /// The `Dimensions` uniform.
    pub fn dimensions() -> (r: BufferLayout)
        ensures
            r == (BufferLayout { binding: 0, readonly: true }),
    {
        BufferLayout { binding: 0, readonly: true }
    }

    /// Storage holding matrix `A`.
    pub fn a_matrix() -> (r: BufferLayout)
        ensures
            r == (BufferLayout { binding: 1, readonly: true }),
    {
        BufferLayout { binding: 1, readonly: true }
    }

    /// Storage holding matrix `B`.
    pub fn b_matrix() -> (r: BufferLayout)
        ensures
            r == (BufferLayout { binding: 2, readonly: true }),
    {
        BufferLayout { binding: 2, readonly: true }
    }

    /// Storage the kernel writes the result into.
    pub fn result() -> (r: BufferLayout)
        ensures
            r == (BufferLayout { binding: 3, readonly: false }),
    {
        BufferLayout { binding: 3, readonly: false }
    }
}

/// Offset of element `(row, col)` in a row-major matrix with `stride` columns.
pub open spec fn matrix_index(row: int, col: int, stride: int) -> int {
    row * stride + col
}

/// Offset of element `(row, col)` in a row-major matrix with `stride` columns.
pub fn get_matrix_index(row: u32, col: u32, stride: u32) -> (r: usize)
    requires
        row * stride + col <= u32::MAX,
    ensures
        r == matrix_index(row as int, col as int, stride as int),
{
    (row * stride + col) as usize
}

/// Whether an `r0 × c0` matrix can be multiplied by an `r1 × c1` matrix.
pub fn validate_dimensions(a_dims: (u32, u32), b_dims: (u32, u32)) -> (r: bool)
    ensures
        r == (a_dims.1 == b_dims.0),
{
    a_dims.1 == b_dims.0
}

/// Shape of the product of an `a_dims` matrix and a `b_dims` matrix, if they fit.
pub fn get_output_dimensions(a_dims: (u32, u32), b_dims: (u32, u32)) -> (r: Option<(u32, u32)>)
    ensures
        a_dims.1 == b_dims.0 ==> r == Some((a_dims.0, b_dims.1)),
        a_dims.1 != b_dims.0 ==> r is None,
{
    if validate_dimensions(a_dims, b_dims) {
        Some((a_dims.0, b_dims.1))
    } else {
        None
    }
}

} // verus!
