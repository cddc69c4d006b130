//! The decisions of the GPU backend: the binding layout, what one multiply uploads and
//! dispatches, and how the outcomes of device work map to errors. The device calls themselves
//! are made by the host program, which hands the results back here.
use vstd::prelude::*;
use crate::error::MatrixMultiplyError;
use crate::settings::{BufferLayout, Dimensions, U32x3};
use crate::variants::{Gpu, GridComputation};

verus! {

/// Bytes of one matrix element.
pub const ELEMENT_BYTES: u64 = 4;

/// How a slot of the layout is bound.
#[derive(Copy, Clone, Debug, PartialEq, Eq, Structural)]
pub enum BindingKind {
    /// A small read-only uniform.
    Uniform,
    /// A storage buffer.
    Storage { read_only: bool },
}

/// One entry of the bind group layout.
#[derive(Copy, Clone, Debug, PartialEq, Eq, Structural)]
pub struct BindingSlot {
    pub binding: u32,
    pub kind: BindingKind,
}

/// The buffer bound to a slot.
#[derive(Copy, Clone, Debug, PartialEq, Eq, Structural)]
pub enum BufferRole {
    Dimensions,
    AMatrix,
    BMatrix,
    Result,
}

/// The fixed layout, the same for every GPU variant: the dimensions uniform at slot 0, `A` and
/// `B` as read-only storage at slots 1 and 2, the result as read-write storage at slot 3.
pub open spec fn layout_spec() -> Seq<BindingSlot> {
    seq![
        BindingSlot { binding: 0, kind: BindingKind::Uniform },
        BindingSlot { binding: 1, kind: BindingKind::Storage { read_only: true } },
        BindingSlot { binding: 2, kind: BindingKind::Storage { read_only: true } },
        BindingSlot { binding: 3, kind: BindingKind::Storage { read_only: false } },
    ]
}

fn storage_slot(slot: BufferLayout) -> (r: BindingSlot)
    ensures
        r == (BindingSlot { binding: slot.binding, kind: BindingKind::Storage { read_only: slot.readonly } }),
{
    BindingSlot { binding: slot.binding, kind: BindingKind::Storage { read_only: slot.readonly } }
}

/// The entries of the bind group layout, in slot order.
pub fn bind_group_layout_entries() -> (r: Vec<BindingSlot>)
    ensures
        r@ == layout_spec(),
{
    let mut entries: Vec<BindingSlot> = Vec::new();
    entries.push(BindingSlot { binding: BufferLayout::dimensions().binding, kind: BindingKind::Uniform });
    entries.push(storage_slot(BufferLayout::a_matrix()));
    entries.push(storage_slot(BufferLayout::b_matrix()));
    entries.push(storage_slot(BufferLayout::result()));
    proof {
        assert(entries@ =~= layout_spec());
    }
    entries
}

/// Which buffer each slot of a bind group receives.
pub open spec fn bind_group_spec() -> Seq<(u32, BufferRole)> {
    seq![(1u32, BufferRole::AMatrix), (2u32, BufferRole::BMatrix), (3u32, BufferRole::Result), (0u32, BufferRole::Dimensions)]
}

/// The entries of a bind group: each buffer of a multiply with the slot it is bound to.
pub fn bind_group_entries() -> (r: Vec<(u32, BufferRole)>)
    ensures
        r@ == bind_group_spec(),
{
    let mut entries: Vec<(u32, BufferRole)> = Vec::new();
    entries.push((BufferLayout::a_matrix().binding, BufferRole::AMatrix));
    entries.push((BufferLayout::b_matrix().binding, BufferRole::BMatrix));
    entries.push((BufferLayout::result().binding, BufferRole::Result));
    entries.push((BufferLayout::dimensions().binding, BufferRole::Dimensions));
    proof {
        assert(entries@ =~= bind_group_spec());
    }
    entries
}

/// What one multiply uploads, dispatches and reads back.
#[derive(Copy, Clone, Debug, PartialEq, Eq, Structural)]
pub struct GpuPlan {
    /// The uniform written to slot 0.
    pub dimensions: Dimensions,
    /// The number of workgroups along each axis.
    pub dispatch: U32x3,
    /// Bytes of the result buffer and of the staging buffer.
    pub result_size: u64,
    /// Elements of the result.
    pub output_len: usize,
}

impl GpuPlan {
    /// The sizes agree: `output_len` elements of `m × n`, four bytes each.
    pub open spec fn wf(self) -> bool {
        &&& self.output_len == self.dimensions.m * self.dimensions.n
        &&& self.result_size == self.output_len * ELEMENT_BYTES
    }
}

/// Where a multiplier stands between multiplies.
#[derive(Copy, Clone, Debug, PartialEq, Eq, Structural)]
pub enum GpuPhase {
    /// Device and pipeline are ready; no multiply is under way.
    Ready,
    /// The work of a multiply has been planned and handed to the device; its result has not
    /// been read back yet.
    Dispatched { plan: GpuPlan },
}

/// Matrix multiplication on the GPU: the variant, the device resources it owns, and whether a
/// multiply is under way. Construction happens only once the resources were acquired, so a
/// multiplier starts ready; a multiply needs exclusive access from its start to its read-back.
pub struct MatrixMultiplier<V, R> {
    pub variant: V,
    pub resources: R,
    pub phase: GpuPhase,
}

impl<V: Gpu + GridComputation, R> MatrixMultiplier<V, R> {
    /// A multiplier for `variant` that owns `resources` (device, queue, pipeline, layout).
    pub fn new(variant: V, resources: R) -> (r: Self)
        ensures
            r.variant == variant,
            r.resources == resources,
            r.phase == GpuPhase::Ready,
    {
        MatrixMultiplier { variant, resources, phase: GpuPhase::Ready }
    }

    /// The plan of one multiply of an `m × k` matrix of `a_len` elements by a `k × n` matrix
    /// of `b_len` elements, refused before any device work when the lengths do not match.
    pub fn plan(&self, a_len: usize, b_len: usize, m: u32, k: u32, n: u32) -> (r: Result<GpuPlan, MatrixMultiplyError>)
        requires
            self.variant.dispatch_defined(m, n),
            m * n <= usize::MAX,
            m * n * ELEMENT_BYTES <= u64::MAX,
        ensures
            r is Err <==> (a_len != m * k || b_len != k * n),
            r is Err ==> r->Err_0 == MatrixMultiplyError::DimensionMismatch,
            r is Ok ==> r->Ok_0 == (GpuPlan {
                dimensions: Dimensions { m, k, n },
                dispatch: self.variant.spec_dispatch_count(m, n),
                result_size: (m * n * ELEMENT_BYTES) as u64,
                output_len: (m * n) as usize,
            }),
    {
        proof {
            crate::variants::lemma_u32_product_fits(m, k);
            crate::variants::lemma_u32_product_fits(k, n);
            crate::variants::lemma_u32_product_fits(m, n);
        }
        let a_expected: u64 = (m as u64) * (k as u64);
        let b_expected: u64 = (k as u64) * (n as u64);
        if a_len as u64 != a_expected || b_len as u64 != b_expected {
            return Err(MatrixMultiplyError::DimensionMismatch);
        }
        let elements: u64 = (m as u64) * (n as u64);
        Ok(GpuPlan {
            dimensions: Dimensions::new(m, k, n),
            dispatch: self.variant.dispatch_count(m, n),
            result_size: elements * ELEMENT_BYTES,
            output_len: (m as usize) * (n as usize),
        })
    }

    /// Starts a multiply: plans it and, when the lengths match, records that its work is on the
    /// device. A refused multiply leaves the multiplier ready.
    pub fn begin_multiply(&mut self, a_len: usize, b_len: usize, m: u32, k: u32, n: u32) -> (r: Result<GpuPlan, MatrixMultiplyError>)
        requires
            old(self).phase == GpuPhase::Ready,
            old(self).variant.dispatch_defined(m, n),
            m * n <= usize::MAX,
            m * n * ELEMENT_BYTES <= u64::MAX,
        ensures
            final(self).variant == old(self).variant,
            final(self).resources == old(self).resources,
            r is Err <==> (a_len != m * k || b_len != k * n),
            r is Err ==> r->Err_0 == MatrixMultiplyError::DimensionMismatch && final(self).phase == GpuPhase::Ready,
            r is Ok ==> r->Ok_0 == (GpuPlan {
                dimensions: Dimensions { m, k, n },
                dispatch: old(self).variant.spec_dispatch_count(m, n),
                result_size: (m * n * ELEMENT_BYTES) as u64,
                output_len: (m * n) as usize,
            }) && r->Ok_0.wf() && final(self).phase == (GpuPhase::Dispatched { plan: r->Ok_0 }),
    {
        let planned = self.plan(a_len, b_len, m, k, n);
        match planned {
            Ok(p) => {
                self.phase = GpuPhase::Dispatched { plan: p };
                Ok(p)
            },
            Err(e) => Err(e),
        }
    }

    /// Ends a multiply from what the read-back reported: whether the completion signal arrived,
    /// whether the staging buffer was mapped, and how many bytes it holds. The multiplier is
    /// ready again whatever the outcome.
    pub fn finish_multiply(&mut self, received: bool, mapped: bool, byte_len: usize) -> (r: Result<(), MatrixMultiplyError>)
        requires
            old(self).phase is Dispatched,
            old(self).phase->plan.wf(),
        ensures
            r is Ok ==> byte_len == ELEMENT_BYTES * old(self).phase->plan.dimensions.m
                * old(self).phase->plan.dimensions.n,
            final(self).variant == old(self).variant,
            final(self).resources == old(self).resources,
            final(self).phase == GpuPhase::Ready,
            r == (match readback_spec(received, mapped) {
                Ok(()) => if byte_len == old(self).phase->plan.result_size {
                    Ok(())
                } else {
                    Err(MatrixMultiplyError::GpuDataReceive)
                },
                Err(e) => Err(e),
            }),
    {
        let plan = match self.phase {
            GpuPhase::Dispatched { plan } => plan,
            GpuPhase::Ready => {
                proof {
                    assert(false);
                }
                return Err(MatrixMultiplyError::GpuDataReceive);
            },
        };
        proof {
            let dm = plan.dimensions.m as int;
            let dn = plan.dimensions.n as int;
            assert(plan.result_size == 4 * dm * dn) by (nonlinear_arith)
                requires plan.output_len == dm * dn, plan.result_size == plan.output_len * 4;
        }
        self.phase = GpuPhase::Ready;
        readback_status(received, mapped)?;
        if readback_fits(&plan, byte_len) {
            Ok(())
        } else {
            Err(MatrixMultiplyError::GpuDataReceive)
        }
    }
}


/// The outcome of reading the result back: the completion signal may never arrive, and the
/// mapping it reports may have failed.
pub open spec fn readback_spec(received: bool, mapped: bool) -> Result<(), MatrixMultiplyError> {
    if !received {
        Err(MatrixMultiplyError::GpuDataReceive)
    } else if !mapped {
        Err(MatrixMultiplyError::GpuBufferMapping)
    } else {
        Ok(())
    }
}

/// The outcome of reading the result back, from whether the completion signal arrived and
/// whether the staging buffer was mapped.
pub fn readback_status(received: bool, mapped: bool) -> (r: Result<(), MatrixMultiplyError>)
    ensures
        r == readback_spec(received, mapped),
{
    if !received {
        Err(MatrixMultiplyError::GpuDataReceive)
    } else if !mapped {
        Err(MatrixMultiplyError::GpuBufferMapping)
    } else {
        Ok(())
    }
}

/// The outcome of construction, from which acquisition steps succeeded; the first that failed
/// names the error.
pub open spec fn init_spec(instance: bool, adapter: bool, device: bool) -> Result<(), MatrixMultiplyError> {
    if !instance {
        Err(MatrixMultiplyError::GpuInstanceCreation)
    } else if !adapter {
        Err(MatrixMultiplyError::GpuAdapterRequest)
    } else if !device {
        Err(MatrixMultiplyError::GpuDeviceCreation)
    } else {
        Ok(())
    }
}

/// The outcome of construction, from which acquisition steps succeeded.
pub fn init_status(instance: bool, adapter: bool, device: bool) -> (r: Result<(), MatrixMultiplyError>)
    ensures
        r == init_spec(instance, adapter, device),
{
    if !instance {
        Err(MatrixMultiplyError::GpuInstanceCreation)
    } else if !adapter {
        Err(MatrixMultiplyError::GpuAdapterRequest)
    } else if !device {
        Err(MatrixMultiplyError::GpuDeviceCreation)
    } else {
        Ok(())
    }
}

/// Whether the mapped staging bytes are exactly the planned result.
pub fn readback_fits(plan: &GpuPlan, byte_len: usize) -> (r: bool)
    ensures
        r == (byte_len == plan.result_size),
{
    byte_len as u64 == plan.result_size
}

/// Byte `i` of `bytes`, zero past its end.
pub open spec fn padded_byte(bytes: Seq<u8>, i: int) -> int {
    if 0 <= i < bytes.len() {
        bytes[i] as int
    } else {
        0
    }
}

/// Word `w` of the zero-padded bytes, read little-endian as SPIR-V lays out its words.
pub open spec fn spirv_word(bytes: Seq<u8>, w: int) -> int {
    padded_byte(bytes, 4 * w) + 256 * padded_byte(bytes, 4 * w + 1) + 65536 * padded_byte(bytes, 4 * w + 2)
        + 16777216 * padded_byte(bytes, 4 * w + 3)
}

fn byte_at(bytes: &Vec<u8>, base: usize, j: usize) -> (r: u32)
    requires
        base <= bytes.len(),
        j < 4,
    ensures
        r == padded_byte(bytes@, base + j),
        r <= 255,
{
    if j < bytes.len() - base {
        bytes[base + j] as u32
    } else {
        0
    }
}

/// The words of a compiled shader module: its bytes padded with zeros to a multiple of four,
/// each group of four read as one little-endian word.
pub fn pad_and_cast_spirv(bytes: &Vec<u8>) -> (words: Vec<u32>)
    ensures
        words.len() == crate::variants::ceil_div(bytes.len() as int, 4),
        forall|w: int| 0 <= w < words.len() ==> #[trigger] words[w] == spirv_word(bytes@, w),
{
    let count: usize = bytes.len() / 4 + if bytes.len() % 4 != 0 { 1 } else { 0 };
    proof {
        assert(count == crate::variants::ceil_div(bytes.len() as int, 4));
    }
    let mut words: Vec<u32> = Vec::with_capacity(count);
    let mut w: usize = 0;
    while w < count
        invariant
            count == crate::variants::ceil_div(bytes.len() as int, 4),
            w <= count,
            words.len() == w,
            forall|v: int| 0 <= v < w ==> #[trigger] words[v] == spirv_word(bytes@, v),
        decreases count - w,
    {
        let base = w * 4;
        let b0 = byte_at(bytes, base, 0);
        let b1 = byte_at(bytes, base, 1);
        let b2 = byte_at(bytes, base, 2);
        let b3 = byte_at(bytes, base, 3);
        words.push(b0 + 256 * b1 + 65536 * b2 + 16777216 * b3);
        w = w + 1;
    }
    words
}

} // verus!
