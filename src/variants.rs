//! The algorithm variants and the dispatch geometry each one launches.
use vstd::prelude::*;
use crate::grid::launch_fits;
use crate::settings::{U32x3, SHADER_ENTRY_POINT};

verus! {

/// Largest number of workgroups a dispatch may launch along one axis.
pub const MAX_DISPATCH: u32 = 65535;

/// Work items per group of the linear variant.
pub const LINEAR_GROUP: u32 = 256;

/// Side of the square workgroup of the two-dimensional variants.
pub const SQUARE_GROUP: u32 = 16;

/// `⌈a / b⌉` for a positive `b`.
pub open spec fn ceil_div(a: int, b: int) -> int
    recommends
        b > 0,
{
    (a + b - 1) / b
}

/// Dispatch of the variant with 256 work items per group along x, capped at the ceiling.
pub open spec fn linear_dispatch(m: int, n: int) -> (int, int, int) {
    let x = ceil_div(m * n, LINEAR_GROUP as int);
    (if x < MAX_DISPATCH as int { x } else { MAX_DISPATCH as int }, 1, 1)
}

/// Dispatch of the variants with a 16 × 16 workgroup: rows along x, columns along y.
pub open spec fn square_dispatch(m: int, n: int) -> (int, int, int) {
    (ceil_div(m, SQUARE_GROUP as int), ceil_div(n, SQUARE_GROUP as int), 1)
}

/// The triple of a `U32x3`, as integers.
pub open spec fn as_triple(v: U32x3) -> (int, int, int) {
    (v.x as int, v.y as int, v.z as int)
}

/// How a variant partitions the output into workgroups and how many it launches.
pub trait GridComputation {
    /// The workgroup size.
    spec fn spec_workgroup(&self) -> U32x3;

    /// The dispatch count for an `m × n` output.
    spec fn spec_dispatch_count(&self, m: u32, n: u32) -> U32x3;

    /// Whether the dispatch count for an `m × n` output fits the component type.
    spec fn dispatch_defined(&self, m: u32, n: u32) -> bool;

    fn workgroup(&self) -> (r: U32x3)
        ensures
            r == self.spec_workgroup(),
    ;

    fn dispatch_count(&self, m: u32, n: u32) -> (r: U32x3)
        requires
            self.dispatch_defined(m, n),
        ensures
            r == self.spec_dispatch_count(m, n),
    ;

    /// Whether `dispatch_count` may be asked for an `m × n` output.
    fn dispatch_is_defined(&self, m: u32, n: u32) -> (r: bool)
        ensures
            r == self.dispatch_defined(m, n),
    ;
}

/// What a GPU variant needs besides its geometry.
pub trait Gpu {
    /// Stable label of the variant, also the name of its compiled kernel.
    spec fn spec_kernel_name(&self) -> Seq<char>;

    fn kernel_name(&self) -> (r: &'static str)
        ensures
            r@ == self.spec_kernel_name(),
    ;

    /// Name of the kernel function inside the compiled module.
    fn entry_point(&self) -> (r: &'static str)
        ensures
            r@ == SHADER_ENTRY_POINT@,
    {
        SHADER_ENTRY_POINT
    }
}

/// The product of two `u32` values fits a `u64`.
pub proof fn lemma_u32_product_fits(a: u32, b: u32)
    ensures
        (a as int) * (b as int) <= u64::MAX,
{
    assert((a as int) * (b as int) <= (u32::MAX as int) * (u32::MAX as int)) by (nonlinear_arith)
        requires a <= u32::MAX, b <= u32::MAX, a >= 0, b >= 0;
}

fn ceil_div_u32(a: u32, b: u32) -> (r: u32)
    requires
        b > 1,
    ensures
        r == ceil_div(a as int, b as int),
{
    let q = a / b;
    let extra: u32 = if a % b != 0 { 1 } else { 0 };
    proof {
        assert(b * q + a % b == a) by (nonlinear_arith)
            requires q == a / b, b > 0;
        assert(ceil_div(a as int, b as int) == q + extra) by (nonlinear_arith)
            requires
                b * q + a % b == a,
                0 <= a % b < b,
                extra == (if a % b != 0 { 1int } else { 0int }),
                b > 1,
        {
            assert(a + b - 1 == b * (q + extra) + (a % b + b - 1 - b * extra));
        }
        assert(q < u32::MAX) by (nonlinear_arith)
            requires q == a / b, b > 1, a <= u32::MAX;
    }
    q + extra
}

fn square_dispatch_count(m: u32, n: u32) -> (r: U32x3)
    ensures
        as_triple(r) == square_dispatch(m as int, n as int),
{
    U32x3 { x: ceil_div_u32(m, SQUARE_GROUP), y: ceil_div_u32(n, SQUARE_GROUP), z: 1 }
}

/// One work item per group, one group per output element.
#[derive(Copy, Clone, Debug, PartialEq, Eq, Structural)]
pub struct Naive;

/// 256 work items per group along one axis.
#[derive(Copy, Clone, Debug, PartialEq, Eq, Structural)]
pub struct Workgroup256;

/// A 16 × 16 workgroup, one output element per work item.
#[derive(Copy, Clone, Debug, PartialEq, Eq, Structural)]
pub struct Workgroup2d;

/// A 16 × 16 workgroup, a row tile of four elements per work item.
#[derive(Copy, Clone, Debug, PartialEq, Eq, Structural)]
pub struct Tiling1d;

/// A 16 × 16 workgroup, a row tile of four elements per work item, computed in a loop.
#[derive(Copy, Clone, Debug, PartialEq, Eq, Structural)]
pub struct Tiling1dLoop;

/// A 16 × 16 workgroup, a 4 × 4 tile per work item.
#[derive(Copy, Clone, Debug, PartialEq, Eq, Structural)]
pub struct Tiling2dSimd;

/// A 16 × 16 workgroup, a 4 × 4 tile per work item; its kernel also runs on the CPU.
#[derive(Copy, Clone, Debug, PartialEq, Eq, Structural)]
pub struct Isomorphic;

impl GridComputation for Naive {
    open spec fn spec_workgroup(&self) -> U32x3 {
        U32x3 { x: 1, y: 1, z: 1 }
    }

    open spec fn spec_dispatch_count(&self, m: u32, n: u32) -> U32x3 {
        U32x3 { x: (m * n) as u32, y: 1, z: 1 }
    }

    open spec fn dispatch_defined(&self, m: u32, n: u32) -> bool {
        m * n <= u32::MAX
    }

    fn workgroup(&self) -> (r: U32x3) {
        U32x3::new(1, 1, 1)
    }

    fn dispatch_count(&self, m: u32, n: u32) -> (r: U32x3) {
        U32x3::new(m * n, 1, 1)
    }

    fn dispatch_is_defined(&self, m: u32, n: u32) -> (r: bool) {
        proof {
            lemma_u32_product_fits(m, n);
        }
        (m as u64) * (n as u64) <= u32::MAX as u64
    }
}

impl GridComputation for Workgroup256 {
    open spec fn spec_workgroup(&self) -> U32x3 {
        U32x3 { x: LINEAR_GROUP, y: 1, z: 1 }
    }

    open spec fn spec_dispatch_count(&self, m: u32, n: u32) -> U32x3 {
        U32x3 { x: linear_dispatch(m as int, n as int).0 as u32, y: 1, z: 1 }
    }

    open spec fn dispatch_defined(&self, m: u32, n: u32) -> bool {
        true
    }

    fn workgroup(&self) -> (r: U32x3) {
        U32x3::new(LINEAR_GROUP, 1, 1)
    }

    fn dispatch_count(&self, m: u32, n: u32) -> (r: U32x3) {
        proof {
            lemma_u32_product_fits(m, n);
        }
        let threads_needed: u64 = (m as u64) * (n as u64);
        let group = LINEAR_GROUP as u64;
        let q = threads_needed / group;
        let extra: u64 = if threads_needed % group != 0 { 1 } else { 0 };
        proof {
            assert(ceil_div(threads_needed as int, 256) == q + extra) by (nonlinear_arith)
                requires
                    q == threads_needed / 256,
                    extra == (if threads_needed % 256 != 0 { 1int } else { 0int }),
                    threads_needed >= 0,
            {
                assert(threads_needed == 256 * q + threads_needed % 256);
            }
        }
        let groups = q + extra;
        let x: u32 = if groups < MAX_DISPATCH as u64 { groups as u32 } else { MAX_DISPATCH };
        U32x3::new(x, 1, 1)
    }

    fn dispatch_is_defined(&self, m: u32, n: u32) -> (r: bool) {
        true
    }
}

impl GridComputation for Workgroup2d {
    open spec fn spec_workgroup(&self) -> U32x3 {
        U32x3 { x: SQUARE_GROUP, y: SQUARE_GROUP, z: 1 }
    }

    open spec fn spec_dispatch_count(&self, m: u32, n: u32) -> U32x3 {
        let d = square_dispatch(m as int, n as int);
        U32x3 { x: d.0 as u32, y: d.1 as u32, z: 1 }
    }

    open spec fn dispatch_defined(&self, m: u32, n: u32) -> bool {
        true
    }

    fn workgroup(&self) -> (r: U32x3) {
        U32x3::new(SQUARE_GROUP, SQUARE_GROUP, 1)
    }

    fn dispatch_count(&self, m: u32, n: u32) -> (r: U32x3) {
        square_dispatch_count(m, n)
    }

    fn dispatch_is_defined(&self, m: u32, n: u32) -> (r: bool) {
        true
    }
}

impl GridComputation for Tiling1d {
    open spec fn spec_workgroup(&self) -> U32x3 {
        U32x3 { x: SQUARE_GROUP, y: SQUARE_GROUP, z: 1 }
    }

    open spec fn spec_dispatch_count(&self, m: u32, n: u32) -> U32x3 {
        let d = square_dispatch(m as int, n as int);
        U32x3 { x: d.0 as u32, y: d.1 as u32, z: 1 }
    }

    open spec fn dispatch_defined(&self, m: u32, n: u32) -> bool {
        true
    }

    fn workgroup(&self) -> (r: U32x3) {
        U32x3::new(SQUARE_GROUP, SQUARE_GROUP, 1)
    }

    fn dispatch_count(&self, m: u32, n: u32) -> (r: U32x3) {
        square_dispatch_count(m, n)
    }

    fn dispatch_is_defined(&self, m: u32, n: u32) -> (r: bool) {
        true
    }
}

impl GridComputation for Tiling1dLoop {
    open spec fn spec_workgroup(&self) -> U32x3 {
        U32x3 { x: SQUARE_GROUP, y: SQUARE_GROUP, z: 1 }
    }

    open spec fn spec_dispatch_count(&self, m: u32, n: u32) -> U32x3 {
        let d = square_dispatch(m as int, n as int);
        U32x3 { x: d.0 as u32, y: d.1 as u32, z: 1 }
    }

    open spec fn dispatch_defined(&self, m: u32, n: u32) -> bool {
        true
    }

    fn workgroup(&self) -> (r: U32x3) {
        U32x3::new(SQUARE_GROUP, SQUARE_GROUP, 1)
    }

    fn dispatch_count(&self, m: u32, n: u32) -> (r: U32x3) {
        square_dispatch_count(m, n)
    }

    fn dispatch_is_defined(&self, m: u32, n: u32) -> (r: bool) {
        true
    }
}

impl GridComputation for Tiling2dSimd {
    open spec fn spec_workgroup(&self) -> U32x3 {
        U32x3 { x: SQUARE_GROUP, y: SQUARE_GROUP, z: 1 }
    }

    open spec fn spec_dispatch_count(&self, m: u32, n: u32) -> U32x3 {
        let d = square_dispatch(m as int, n as int);
        U32x3 { x: d.0 as u32, y: d.1 as u32, z: 1 }
    }

    open spec fn dispatch_defined(&self, m: u32, n: u32) -> bool {
        true
    }

    fn workgroup(&self) -> (r: U32x3) {
        U32x3::new(SQUARE_GROUP, SQUARE_GROUP, 1)
    }

    fn dispatch_count(&self, m: u32, n: u32) -> (r: U32x3) {
        square_dispatch_count(m, n)
    }

    fn dispatch_is_defined(&self, m: u32, n: u32) -> (r: bool) {
        true
    }
}

impl GridComputation for Isomorphic {
    open spec fn spec_workgroup(&self) -> U32x3 {
        U32x3 { x: SQUARE_GROUP, y: SQUARE_GROUP, z: 1 }
    }

    open spec fn spec_dispatch_count(&self, m: u32, n: u32) -> U32x3 {
        let d = square_dispatch(m as int, n as int);
        U32x3 { x: d.0 as u32, y: d.1 as u32, z: 1 }
    }

    open spec fn dispatch_defined(&self, m: u32, n: u32) -> bool {
        true
    }

    fn workgroup(&self) -> (r: U32x3) {
        U32x3::new(SQUARE_GROUP, SQUARE_GROUP, 1)
    }

    fn dispatch_count(&self, m: u32, n: u32) -> (r: U32x3) {
        square_dispatch_count(m, n)
    }

    fn dispatch_is_defined(&self, m: u32, n: u32) -> (r: bool) {
        true
    }
}

impl Gpu for Naive {
    open spec fn spec_kernel_name(&self) -> Seq<char> {
        "naive"@
    }

    fn kernel_name(&self) -> (r: &'static str) {
        "naive"
    }
}

impl Gpu for Workgroup256 {
    open spec fn spec_kernel_name(&self) -> Seq<char> {
        "workgroup_256"@
    }

    fn kernel_name(&self) -> (r: &'static str) {
        "workgroup_256"
    }
}

impl Gpu for Workgroup2d {
    open spec fn spec_kernel_name(&self) -> Seq<char> {
        "workgroup_2d"@
    }

    fn kernel_name(&self) -> (r: &'static str) {
        "workgroup_2d"
    }
}

impl Gpu for Tiling1d {
    open spec fn spec_kernel_name(&self) -> Seq<char> {
        "tiling_1d"@
    }

    fn kernel_name(&self) -> (r: &'static str) {
        "tiling_1d"
    }
}

impl Gpu for Tiling1dLoop {
    open spec fn spec_kernel_name(&self) -> Seq<char> {
        "tiling_1d_loop"@
    }

    fn kernel_name(&self) -> (r: &'static str) {
        "tiling_1d_loop"
    }
}

impl Gpu for Tiling2dSimd {
    open spec fn spec_kernel_name(&self) -> Seq<char> {
        "tiling_2d"@
    }

    fn kernel_name(&self) -> (r: &'static str) {
        "tiling_2d"
    }
}

impl Gpu for Isomorphic {
    open spec fn spec_kernel_name(&self) -> Seq<char> {
        "isomorphic"@
    }

    fn kernel_name(&self) -> (r: &'static str) {
        "isomorphic"
    }
}

/// Componentwise `a <= b`.
pub open spec fn le3(a: U32x3, b: U32x3) -> bool {
    a.x <= b.x && a.y <= b.y && a.z <= b.z
}

/// Every component of `d` is at most the hardware ceiling.
pub open spec fn within_ceiling(d: U32x3) -> bool {
    d.x <= MAX_DISPATCH && d.y <= MAX_DISPATCH && d.z <= MAX_DISPATCH
}

/// Number of groups that a dispatch count launches.
pub open spec fn groups(d: U32x3) -> int {
    d.x * d.y * d.z
}

proof fn lemma_ceil_div_monotone(a1: int, a2: int, b: int)
    requires
        0 <= a1 <= a2,
        b > 0,
    ensures
        ceil_div(a1, b) <= ceil_div(a2, b),
{
    vstd::arithmetic::div_mod::lemma_div_is_ordered(a1 + b - 1, a2 + b - 1, b);
}

proof fn lemma_ceil_div_facts(a: int, b: int)
    requires
        a >= 0,
        b > 0,
    ensures
        ceil_div(a, b) >= 0,
        ceil_div(a, b) == 0 <==> a == 0,
        ceil_div(a, b) * b >= a,
        b > 1 ==> ceil_div(a, b) <= a,
{
    let q = ceil_div(a, b);
    assert(b * q <= a + b - 1 < b * q + b) by (nonlinear_arith)
        requires q == (a + b - 1) / b, b > 0, a + b - 1 >= 0;
    assert(q >= 0) by (nonlinear_arith)
        requires b * q + b > a + b - 1, a >= 0, b > 0;
    assert(q * b >= a) by (nonlinear_arith)
        requires b * q + b > a + b - 1, b > 0;
    if a == 0 {
        assert(q == 0) by (nonlinear_arith)
            requires b * q <= b - 1, q >= 0, b > 0;
    } else {
        assert(q != 0) by (nonlinear_arith)
            requires b * q + b > a + b - 1, a > 0;
    }
    if b > 1 {
        assert(q <= a) by (nonlinear_arith)
            requires b * q <= a + b - 1, b > 1, a >= 0, q >= 0;
    }
}

proof fn lemma_square_dispatch(m: u32, n: u32)
    ensures
        0 <= ceil_div(m as int, 16) <= m,
        0 <= ceil_div(n as int, 16) <= n,
        ceil_div(m as int, 16) == 0 <==> m == 0,
        ceil_div(n as int, 16) == 0 <==> n == 0,
{
    lemma_ceil_div_facts(m as int, 16);
    lemma_ceil_div_facts(n as int, 16);
}

proof fn lemma_linear_dispatch(m: u32, n: u32)
    ensures
        0 <= linear_dispatch(m as int, n as int).0 <= MAX_DISPATCH,
        linear_dispatch(m as int, n as int).0 == 0 <==> m as int * n as int == 0,
{
    assert(m as int * n as int >= 0) by (nonlinear_arith)
        requires m >= 0, n >= 0;
    lemma_ceil_div_facts(m as int * n as int, 256);
}

/// The dispatch counts never decrease when the output grows in either direction.
pub proof fn dispatch_count_monotone(m1: u32, n1: u32, m2: u32, n2: u32)
    requires
        m1 <= m2,
        n1 <= n2,
    ensures
        Naive.dispatch_defined(m2, n2) ==> le3(
            Naive.spec_dispatch_count(m1, n1),
            Naive.spec_dispatch_count(m2, n2),
        ),
        le3(Workgroup256.spec_dispatch_count(m1, n1), Workgroup256.spec_dispatch_count(m2, n2)),
        le3(Workgroup2d.spec_dispatch_count(m1, n1), Workgroup2d.spec_dispatch_count(m2, n2)),
        le3(Tiling1d.spec_dispatch_count(m1, n1), Tiling1d.spec_dispatch_count(m2, n2)),
        le3(Tiling1dLoop.spec_dispatch_count(m1, n1), Tiling1dLoop.spec_dispatch_count(m2, n2)),
        le3(Tiling2dSimd.spec_dispatch_count(m1, n1), Tiling2dSimd.spec_dispatch_count(m2, n2)),
        le3(Isomorphic.spec_dispatch_count(m1, n1), Isomorphic.spec_dispatch_count(m2, n2)),
{
    assert(m1 as int * n1 as int <= m2 as int * n2 as int) by (nonlinear_arith)
        requires m1 <= m2, n1 <= n2, m1 >= 0, n1 >= 0;
    assert(m1 as int * n1 as int >= 0) by (nonlinear_arith)
        requires m1 >= 0, n1 >= 0;
    lemma_ceil_div_monotone(m1 as int * n1 as int, m2 as int * n2 as int, 256);
    lemma_ceil_div_monotone(m1 as int, m2 as int, 16);
    lemma_ceil_div_monotone(n1 as int, n2 as int, 16);
    lemma_linear_dispatch(m1, n1);
    lemma_linear_dispatch(m2, n2);
    lemma_square_dispatch(m1, n1);
    lemma_square_dispatch(m2, n2);
}

/// Every dispatch count stays within the per-axis ceiling on the sizes each variant is meant for:
/// any size for the linear variant, up to 1,048,560 rows and columns for the 16 × 16 ones, and
/// up to 65,535 output elements for the one-element-per-group variant.
pub proof fn dispatch_count_within_ceiling(m: u32, n: u32)
    ensures
        m as int * n as int <= MAX_DISPATCH ==> within_ceiling(Naive.spec_dispatch_count(m, n)),
        within_ceiling(Workgroup256.spec_dispatch_count(m, n)),
        m <= 1048560 && n <= 1048560 ==> {
            &&& within_ceiling(Workgroup2d.spec_dispatch_count(m, n))
            &&& within_ceiling(Tiling1d.spec_dispatch_count(m, n))
            &&& within_ceiling(Tiling1dLoop.spec_dispatch_count(m, n))
            &&& within_ceiling(Tiling2dSimd.spec_dispatch_count(m, n))
            &&& within_ceiling(Isomorphic.spec_dispatch_count(m, n))
        },
{
    lemma_linear_dispatch(m, n);
    lemma_square_dispatch(m, n);
    if m <= 1048560 && n <= 1048560 {
        lemma_ceil_div_monotone(m as int, 1048560, 16);
        lemma_ceil_div_monotone(n as int, 1048560, 16);
    }
}

/// A dispatch launches no group exactly when the output has no rows or no columns.
pub proof fn dispatch_count_zero_iff_empty(m: u32, n: u32)
    ensures
        Naive.dispatch_defined(m, n) ==> (groups(Naive.spec_dispatch_count(m, n)) == 0 <==> (m
            == 0 || n == 0)),
        groups(Workgroup256.spec_dispatch_count(m, n)) == 0 <==> (m == 0 || n == 0),
        groups(Workgroup2d.spec_dispatch_count(m, n)) == 0 <==> (m == 0 || n == 0),
        groups(Tiling1d.spec_dispatch_count(m, n)) == 0 <==> (m == 0 || n == 0),
        groups(Tiling1dLoop.spec_dispatch_count(m, n)) == 0 <==> (m == 0 || n == 0),
        groups(Tiling2dSimd.spec_dispatch_count(m, n)) == 0 <==> (m == 0 || n == 0),
        groups(Isomorphic.spec_dispatch_count(m, n)) == 0 <==> (m == 0 || n == 0),
{
    lemma_linear_dispatch(m, n);
    lemma_square_dispatch(m, n);
    let x = ceil_div(m as int, 16);
    let y = ceil_div(n as int, 16);
    assert(x * y * 1 == 0 <==> (x == 0 || y == 0)) by (nonlinear_arith);
    assert(m as int * n as int == 0 <==> (m == 0 || n == 0)) by (nonlinear_arith);
}

/// The 16 × 16 grid reaches every `(x, y)` of an `m × n` output, with coordinates that fit.
pub proof fn lemma_square_reaches(m: u32, n: u32)
    ensures
        launch_fits(
            U32x3 { x: SQUARE_GROUP, y: SQUARE_GROUP, z: 1 },
            U32x3 {
                x: square_dispatch(m as int, n as int).0 as u32,
                y: square_dispatch(m as int, n as int).1 as u32,
                z: 1,
            },
        ),
        (square_dispatch(m as int, n as int).0 as u32) * SQUARE_GROUP >= m,
        (square_dispatch(m as int, n as int).1 as u32) * SQUARE_GROUP >= n,
{
    lemma_ceil_div_facts(m as int, 16);
    lemma_ceil_div_facts(n as int, 16);
    let x = ceil_div(m as int, 16);
    let y = ceil_div(n as int, 16);
    assert(x * 16 <= u32::MAX + 1) by (nonlinear_arith)
        requires x * 16 < m + 16, m <= u32::MAX, x == (m + 15) / 16;
    assert(y * 16 <= u32::MAX + 1) by (nonlinear_arith)
        requires y * 16 < n + 16, n <= u32::MAX, y == (n + 15) / 16;
}

} // verus!
