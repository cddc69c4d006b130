//! Host drivers that walk a variant's dispatch grid and run its kernel directly.
use vstd::prelude::*;
use rayon::iter::{IntoParallelRefIterator, ParallelIterator};
use crate::error::MatrixMultiplyError;
use crate::grid::{holds, in_launch, launch_coordinates};
use crate::kernel::{
    cell_col, cell_ok, cell_row, has_index, inputs_fit, is_dot, lemma_cell_index, scatter, tile_result, total, written_from, Cpu,
};
use crate::settings::{Dimensions, U32x3};

verus! {

/// Whether some invocation of the `m × n` launch grid computes output element `(r, c)`.
pub open spec fn covered_by_grid<V: Cpu>(v: V, d: Dimensions, r: int, c: int) -> bool {
    exists|x: int, y: int| 0 <= x < d.m && 0 <= y < d.n && #[trigger] v.covers(x, y, d, r, c)
}

/// `out` is the product that the variant's grid computes: each output element that some
/// invocation covers holds its dot product, every other one holds `zero`.
pub open spec fn product_of<V: Cpu, T, F: Fn(T, T, T) -> T>(
    v: V,
    d: Dimensions,
    a: Seq<T>,
    b: Seq<T>,
    zero: T,
    fma: F,
    out: Seq<T>,
) -> bool {
    &&& out.len() == d.m * d.n
    &&& forall|r: int, c: int|
        0 <= r < d.m && 0 <= c < d.n ==> {
            &&& covered_by_grid(v, d, r, c) ==> is_dot(fma, zero, a, b, d, r, c, #[trigger] out[r * d.n + c])
            &&& !covered_by_grid(v, d, r, c) ==> out[r * d.n + c] == zero
        }
}

/// `out` is the reference product: every output element holds its dot product.
pub open spec fn is_reference_product<T, F: Fn(T, T, T) -> T>(
    d: Dimensions,
    a: Seq<T>,
    b: Seq<T>,
    zero: T,
    fma: F,
    out: Seq<T>,
) -> bool {
    &&& out.len() == d.m * d.n
    &&& forall|r: int, c: int|
        0 <= r < d.m && 0 <= c < d.n ==> is_dot(fma, zero, a, b, d, r, c, #[trigger] out[r * d.n + c])
}

/// What a multiply returns: the reference product when the input lengths match the shape, and
/// `DimensionMismatch` exactly when they do not.
pub open spec fn multiply_result<V: Cpu, T, F: Fn(T, T, T) -> T>(
    v: V,
    d: Dimensions,
    a: Seq<T>,
    b: Seq<T>,
    zero: T,
    fma: F,
    r: Result<Vec<T>, MatrixMultiplyError>,
) -> bool {
    match r {
        Ok(out) => inputs_fit(d, a, b) && is_reference_product(d, a, b, zero, fma, out@),
        Err(e) => !inputs_fit(d, a, b) && e == MatrixMultiplyError::DimensionMismatch,
    }
}

/// Whether one of the first `t` invocations of `tasks` covers the output element at `idx`.
pub open spec fn done_by<V: Cpu>(v: V, tasks: Seq<(u32, u32)>, t: int, d: Dimensions, idx: int) -> bool {
    exists|s: int|
        0 <= s < t && #[trigger] v.covers(tasks[s].0 as int, tasks[s].1 as int, d, cell_row(d, idx), cell_col(d, idx))
}

/// The output so far: what the first `t` invocations covered holds dot products, the rest zero.
pub open spec fn progress<V: Cpu, T, F: Fn(T, T, T) -> T>(
    v: V,
    tasks: Seq<(u32, u32)>,
    t: int,
    d: Dimensions,
    a: Seq<T>,
    b: Seq<T>,
    zero: T,
    fma: F,
    out: Seq<T>,
) -> bool {
    &&& out.len() == d.m * d.n
    &&& forall|idx: int|
        0 <= idx < d.m * d.n ==> {
            &&& #[trigger] done_by(v, tasks, t, d, idx) ==> is_dot(fma, zero, a, b, d, cell_row(d, idx), cell_col(d, idx), out[idx])
            &&& !done_by(v, tasks, t, d, idx) ==> out[idx] == zero
        }
}

/// Extends the covered set by one invocation.
proof fn lemma_done_step<V: Cpu>(v: V, tasks: Seq<(u32, u32)>, t: int, d: Dimensions, idx: int)
    requires
        0 <= t < tasks.len(),
    ensures
        done_by(v, tasks, t + 1, d, idx) == (done_by(v, tasks, t, d, idx) || v.covers(
            tasks[t].0 as int,
            tasks[t].1 as int,
            d,
            cell_row(d, idx),
            cell_col(d, idx),
        )),
{
    if done_by(v, tasks, t + 1, d, idx) {
        let s = choose|s: int|
            0 <= s < t + 1 && #[trigger] v.covers(tasks[s].0 as int, tasks[s].1 as int, d, cell_row(d, idx), cell_col(d, idx));
        if s < t {
            assert(done_by(v, tasks, t, d, idx));
        }
    }
    if done_by(v, tasks, t, d, idx) {
        let s = choose|s: int|
            0 <= s < t && #[trigger] v.covers(tasks[s].0 as int, tasks[s].1 as int, d, cell_row(d, idx), cell_col(d, idx));
        assert(v.covers(tasks[s].0 as int, tasks[s].1 as int, d, cell_row(d, idx), cell_col(d, idx)));
    }
}

/// Once every invocation of the launch has run, the covered set is the grid's.
proof fn lemma_progress_complete<V: Cpu, T, F: Fn(T, T, T) -> T>(
    v: V,
    tasks: Seq<(u32, u32)>,
    workgroup: U32x3,
    dispatch: U32x3,
    d: Dimensions,
    a: Seq<T>,
    b: Seq<T>,
    zero: T,
    fma: F,
    out: Seq<T>,
)
    requires
        dispatch.x * workgroup.x >= d.m,
        dispatch.y * workgroup.y >= d.n,
        forall|i: int|
            0 <= i < tasks.len() ==> in_launch(workgroup, dispatch, d.m, d.n, #[trigger] tasks[i].0 as int, tasks[i].1 as int),
        forall|x: int, y: int| #[trigger] in_launch(workgroup, dispatch, d.m, d.n, x, y) ==> holds(tasks, x, y),
        progress(v, tasks, tasks.len() as int, d, a, b, zero, fma, out),
    ensures
        product_of(v, d, a, b, zero, fma, out),
{
    assert forall|r: int, c: int| 0 <= r < d.m && 0 <= c < d.n implies {
        &&& covered_by_grid(v, d, r, c) ==> is_dot(fma, zero, a, b, d, r, c, #[trigger] out[r * d.n + c])
        &&& !covered_by_grid(v, d, r, c) ==> out[r * d.n + c] == zero
    } by {
        lemma_cell_index(r, c, d.m as int, d.n as int);
        let idx = r * d.n + c;
        assert(cell_row(d, idx) == r && cell_col(d, idx) == c);
        if covered_by_grid(v, d, r, c) {
            let (x, y) = choose|x: int, y: int| 0 <= x < d.m && 0 <= y < d.n && #[trigger] v.covers(x, y, d, r, c);
            assert(in_launch(workgroup, dispatch, d.m, d.n, x, y));
            let s = choose|s: int| 0 <= s < tasks.len() && tasks[s].0 == x && tasks[s].1 == y;
            assert(v.covers(tasks[s].0 as int, tasks[s].1 as int, d, cell_row(d, idx), cell_col(d, idx)));
            assert(done_by(v, tasks, tasks.len() as int, d, idx));
        } else {
            if done_by(v, tasks, tasks.len() as int, d, idx) {
                let s = choose|s: int|
                    0 <= s < tasks.len() && #[trigger] v.covers(tasks[s].0 as int, tasks[s].1 as int, d, cell_row(d, idx), cell_col(d, idx));
                assert(in_launch(workgroup, dispatch, d.m, d.n, tasks[s].0 as int, tasks[s].1 as int));
                assert(covered_by_grid(v, d, r, c));
            }
        }
    }
}

/// Running invocation `t` of `tasks` extends the output so far by the elements it covers.
proof fn lemma_progress_step<V: Cpu, T, F: Fn(T, T, T) -> T>(
    v: V,
    tasks: Seq<(u32, u32)>,
    t: int,
    d: Dimensions,
    a: Seq<T>,
    b: Seq<T>,
    zero: T,
    fma: F,
    before: Seq<T>,
    after: Seq<T>,
)
    requires
        0 <= t < tasks.len(),
        progress(v, tasks, t, d, a, b, zero, fma, before),
        after.len() == before.len(),
        forall|idx: int|
            0 <= idx < d.m * d.n && #[trigger] v.covers(tasks[t].0 as int, tasks[t].1 as int, d, cell_row(d, idx), cell_col(d, idx))
                ==> is_dot(fma, zero, a, b, d, cell_row(d, idx), cell_col(d, idx), after[idx]),
        forall|idx: int|
            0 <= idx < d.m * d.n && !#[trigger] v.covers(tasks[t].0 as int, tasks[t].1 as int, d, cell_row(d, idx), cell_col(d, idx))
                ==> after[idx] == before[idx],
    ensures
        progress(v, tasks, t + 1, d, a, b, zero, fma, after),
{
    assert forall|idx: int| 0 <= idx < d.m * d.n implies {
        &&& #[trigger] done_by(v, tasks, t + 1, d, idx) ==> is_dot(fma, zero, a, b, d, cell_row(d, idx), cell_col(d, idx), after[idx])
        &&& !done_by(v, tasks, t + 1, d, idx) ==> after[idx] == zero
    } by {
        lemma_done_step(v, tasks, t, d, idx);
        let was = done_by(v, tasks, t, d, idx);
        assert(was ==> is_dot(fma, zero, a, b, d, cell_row(d, idx), cell_col(d, idx), before[idx]));
        assert(!was ==> before[idx] == zero);
        if v.covers(tasks[t].0 as int, tasks[t].1 as int, d, cell_row(d, idx), cell_col(d, idx)) {
            assert(is_dot(fma, zero, a, b, d, cell_row(d, idx), cell_col(d, idx), after[idx]));
        } else {
            assert(after[idx] == before[idx]);
        }
    }
}

/// Every variant's grid covers the whole output, so its product is the reference product.
proof fn lemma_product_is_reference<V: Cpu, T, F: Fn(T, T, T) -> T>(
    v: V,
    d: Dimensions,
    a: Seq<T>,
    b: Seq<T>,
    zero: T,
    fma: F,
    out: Seq<T>,
)
    requires
        product_of(v, d, a, b, zero, fma, out),
    ensures
        is_reference_product(d, a, b, zero, fma, out),
{
    assert forall|r: int, c: int| 0 <= r < d.m && 0 <= c < d.n implies is_dot(
        fma,
        zero,
        a,
        b,
        d,
        r,
        c,
        #[trigger] out[r * d.n + c],
    ) by {
        v.lemma_covers_output(d, r, c);
        assert(covered_by_grid(v, d, r, c));
    }
}

/// An output of `len` copies of `zero`.
fn zeros<T: Copy>(len: usize, zero: T) -> (r: Vec<T>)
    ensures
        r.len() == len,
        forall|i: int| 0 <= i < len ==> #[trigger] r[i] == zero,
{
    let mut out: Vec<T> = Vec::with_capacity(len);
    let mut i: usize = 0;
    while i < len
        invariant
            i <= len,
            out.len() == i,
            forall|j: int| 0 <= j < i ==> #[trigger] out[j] == zero,
        decreases len - i,
    {
        out.push(zero);
        i = i + 1;
    }
    out
}

/// Whether the input lengths match the shape, checked without overflow.
fn lengths_match<T>(d: Dimensions, a: &Vec<T>, b: &Vec<T>) -> (r: bool)
    ensures
        r == inputs_fit(d, a@, b@),
{
    proof {
        crate::variants::lemma_u32_product_fits(d.m, d.k);
        crate::variants::lemma_u32_product_fits(d.k, d.n);
    }
    let a_len: u64 = (d.m as u64) * (d.k as u64);
    let b_len: u64 = (d.k as u64) * (d.n as u64);
    a.len() as u64 == a_len && b.len() as u64 == b_len
}

/// Run matrix multiplication on the CPU with a single thread.
pub struct SingleThreadedMatMul<V> {
    pub variant: V,
}

impl<V: Cpu> SingleThreadedMatMul<V> {
    pub fn new(variant: V) -> (r: Self)
        ensures
            r.variant == variant,
    {
        SingleThreadedMatMul { variant }
    }

    /// Multiplies the `m × k` matrix `a` by the `k × n` matrix `b`, both row-major, walking the
    /// variant's dispatch grid in order and running the kernel for each launched `(x, y)` inside
    /// the output.
    pub fn multiply<T: Copy, F: Fn(T, T, T) -> T>(
        &self,
        a: &Vec<T>,
        b: &Vec<T>,
        m: u32,
        k: u32,
        n: u32,
        zero: T,
        fma: F,
    ) -> (r: Result<Vec<T>, MatrixMultiplyError>)
        requires
            total(fma),
            m * n <= usize::MAX,
        ensures
            multiply_result(self.variant, Dimensions { m, k, n }, a@, b@, zero, fma, r),
    {
        let d = Dimensions::new(m, k, n);
        if !lengths_match(d, a, b) {
            return Err(MatrixMultiplyError::DimensionMismatch);
        }
        let mut result = zeros((m as usize) * (n as usize), zero);
        proof {
            self.variant.lemma_grid_reaches(m, n);
        }
        let workgroup = self.variant.workgroup();
        let dispatch = self.variant.dispatch_count(m, n);
        let tasks = launch_coordinates(workgroup, dispatch, m, n);
        let mut t: usize = 0;
        while t < tasks.len()
            invariant
                inputs_fit(d, a@, b@),
                d == (Dimensions { m, k, n }),
                m * n <= usize::MAX,
                total(fma),
                t <= tasks.len(),
                progress(self.variant, tasks@, t as int, d, a@, b@, zero, fma, result@),
            decreases tasks.len() - t,
        {
            let (x, y) = tasks[t];
            let ghost before = result@;
            let gid = U32x3::new(x, y, 1);
            self.variant.call(gid, d, a, b, &mut result, zero, &fma);
            assert(gid.x == x && gid.y == y);
            proof {
                lemma_progress_step(self.variant, tasks@, t as int, d, a@, b@, zero, fma, before, result@);
            }
            t = t + 1;
        }
        proof {
            lemma_progress_complete(self.variant, tasks@, workgroup, dispatch, d, a@, b@, zero, fma, result@);
            lemma_product_is_reference(self.variant, d, a@, b@, zero, fma, result@);
        }
        Ok(result)
    }
}

/// Writes one invocation's entries into the output: the elements it covers get their dot
/// products, the others keep their values.
fn apply_tile<V: Cpu, T: Copy, F: Fn(T, T, T) -> T>(
    v: &V,
    x: u32,
    y: u32,
    d: Dimensions,
    a: &Vec<T>,
    b: &Vec<T>,
    zero: T,
    fma: &F,
    cells: &Vec<(usize, T)>,
    results: &mut Vec<T>,
)
    requires
        tile_result(*v, x as int, y as int, d, a@, b@, zero, *fma, cells@),
        old(results).len() == d.m * d.n,
    ensures
        final(results).len() == old(results).len(),
        forall|idx: int|
            0 <= idx < d.m * d.n && #[trigger] v.covers(x as int, y as int, d, cell_row(d, idx), cell_col(d, idx))
                ==> is_dot(*fma, zero, a@, b@, d, cell_row(d, idx), cell_col(d, idx), final(results)[idx]),
        forall|idx: int|
            0 <= idx < d.m * d.n && !#[trigger] v.covers(x as int, y as int, d, cell_row(d, idx), cell_col(d, idx))
                ==> final(results)[idx] == old(results)[idx],
{
    proof {
        assert forall|j: int| 0 <= j < cells.len() implies #[trigger] cells[j].0 < results.len() by {
            assert(cell_ok(d, a@, b@, zero, *fma, cells[j]));
        }
    }
    let ghost before = results@;
    scatter(results, cells);
    proof {
        assert forall|idx: int|
            0 <= idx < d.m * d.n && #[trigger] v.covers(x as int, y as int, d, cell_row(d, idx), cell_col(d, idx))
                implies is_dot(*fma, zero, a@, b@, d, cell_row(d, idx), cell_col(d, idx), results[idx]) by {
            assert(has_index(cells@, idx));
            assert(written_from(cells@, idx, results[idx]));
            let j = choose|j: int| 0 <= j < cells.len() && (#[trigger] cells@[j]).0 == idx && cells@[j].1 == results[idx];
            assert(cell_ok(d, a@, b@, zero, *fma, cells[j]));
        }
        assert forall|idx: int|
            0 <= idx < d.m * d.n && !#[trigger] v.covers(x as int, y as int, d, cell_row(d, idx), cell_col(d, idx))
                implies results[idx] == before[idx] by {
            if has_index(cells@, idx) {
                let j = choose|j: int| 0 <= j < cells.len() && (#[trigger] cells@[j]).0 == idx;
                assert(cell_ok(d, a@, b@, zero, *fma, cells[j]));
            }
        }
    }
}

/// Computes the entries of every invocation in `tasks` on rayon's thread pool.
///
/// Relies on rayon's `par_iter().map(..).collect::<Vec<_>>()`: an indexed parallel iterator
/// collected into a `Vec` keeps the order of its input, so entry `t` of the result is what
/// `Cpu::tile` returned for `tasks[t]`.
#[verifier::external_body]
fn par_tiles<V: Cpu + Sync, T: Copy + Send + Sync, F: Fn(T, T, T) -> T + Sync>(
    v: &V,
    tasks: &Vec<(u32, u32)>,
    d: Dimensions,
    a: &Vec<T>,
    b: &Vec<T>,
    zero: T,
    fma: &F,
) -> (tiles: Vec<Vec<(usize, T)>>)
    requires
        inputs_fit(d, a@, b@),
        d.m * d.n <= usize::MAX,
        total(*fma),
    ensures
        tiles.len() == tasks.len(),
        forall|t: int|
            0 <= t < tasks.len() ==> tile_result(
                *v,
                tasks[t].0 as int,
                tasks[t].1 as int,
                d,
                a@,
                b@,
                zero,
                *fma,
                #[trigger] tiles[t]@,
            ),
{
    tasks.par_iter().map(|&(x, y)| v.tile(U32x3::new(x, y, 0), d, a, b, zero, fma)).collect()
}

/// Run matrix multiplication on the CPU with multiple threads.
pub struct MultiThreadedMatMul<V> {
    pub variant: V,
}

impl<V: Cpu + Sync> MultiThreadedMatMul<V> {
    pub fn new(variant: V) -> (r: Self)
        ensures
            r.variant == variant,
    {
        MultiThreadedMatMul { variant }
    }

    /// Multiplies the `m × k` matrix `a` by the `k × n` matrix `b`, both row-major. The launched
    /// `(x, y)` inside the output are listed first; their kernels then run in parallel, each
    /// into entries of its own, and the entries are written into the output afterwards.
    pub fn multiply<T: Copy + Send + Sync, F: Fn(T, T, T) -> T + Sync>(
        &self,
        a: &Vec<T>,
        b: &Vec<T>,
        m: u32,
        k: u32,
        n: u32,
        zero: T,
        fma: F,
    ) -> (r: Result<Vec<T>, MatrixMultiplyError>)
        requires
            total(fma),
            m * n <= usize::MAX,
        ensures
            multiply_result(self.variant, Dimensions { m, k, n }, a@, b@, zero, fma, r),
    {
        let d = Dimensions::new(m, k, n);
        if !lengths_match(d, a, b) {
            return Err(MatrixMultiplyError::DimensionMismatch);
        }
        let mut result = zeros((m as usize) * (n as usize), zero);
        proof {
            self.variant.lemma_grid_reaches(m, n);
        }
        let workgroup = self.variant.workgroup();
        let dispatch = self.variant.dispatch_count(m, n);
        let tasks = launch_coordinates(workgroup, dispatch, m, n);
        let tiles = par_tiles(&self.variant, &tasks, d, a, b, zero, &fma);
        let mut t: usize = 0;
        while t < tiles.len()
            invariant
                d == (Dimensions { m, k, n }),
                tiles.len() == tasks.len(),
                forall|s: int|
                    0 <= s < tasks.len() ==> tile_result(
                        self.variant,
                        tasks[s].0 as int,
                        tasks[s].1 as int,
                        d,
                        a@,
                        b@,
                        zero,
                        fma,
                        #[trigger] tiles[s]@,
                    ),
                t <= tasks.len(),
                progress(self.variant, tasks@, t as int, d, a@, b@, zero, fma, result@),
            decreases tiles.len() - t,
        {
            let (x, y) = tasks[t];
            let ghost before = result@;
            apply_tile(&self.variant, x, y, d, a, b, zero, &fma, &tiles[t], &mut result);
            proof {
                lemma_progress_step(self.variant, tasks@, t as int, d, a@, b@, zero, fma, before, result@);
            }
            t = t + 1;
        }
        proof {
            lemma_progress_complete(self.variant, tasks@, workgroup, dispatch, d, a@, b@, zero, fma, result@);
            lemma_product_is_reference(self.variant, d, a@, b@, zero, fma, result@);
        }
        Ok(result)
    }
}

/// A single-threaded CPU multiplier running the isomorphic kernel.
pub fn single_threaded() -> (r: SingleThreadedMatMul<crate::variants::Isomorphic>)
    ensures
        r.variant == crate::variants::Isomorphic,
{
    SingleThreadedMatMul::new(crate::variants::Isomorphic)
}

/// A multi-threaded CPU multiplier running the isomorphic kernel.
pub fn multi_threaded() -> (r: MultiThreadedMatMul<crate::variants::Isomorphic>)
    ensures
        r.variant == crate::variants::Isomorphic,
{
    MultiThreadedMatMul::new(crate::variants::Isomorphic)
}

} // verus!
