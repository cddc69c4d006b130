//! The per-invocation kernel, over any element type.
//!
//! An element type is given by its zero and a multiply-add step `fma(acc, x, y)`, which the
//! caller supplies (for single-precision floats: `acc + x * y`). The kernel accumulates each
//! output element from zero over the shared dimension in ascending order, so any two backends
//! that run it over the same grid perform the same steps.
use vstd::prelude::*;
use crate::settings::{Dimensions, U32x3, TILE_M, TILE_N, TILE_SIZE};
use crate::grid::launch_fits;
use crate::variants::{GridComputation, Isomorphic, Tiling1d, Tiling1dLoop, Tiling2dSimd, Workgroup2d};

verus! {

/// Whether the inputs have the lengths that the shape asks for.
pub open spec fn inputs_fit<T>(d: Dimensions, a: Seq<T>, b: Seq<T>) -> bool {
    &&& a.len() == d.m * d.k
    &&& b.len() == d.k * d.n
}

/// Whether the step may be applied to any arguments.
pub open spec fn total<T, F: Fn(T, T, T) -> T>(fma: F) -> bool {
    forall|acc: T, x: T, y: T| #[trigger] fma.requires((acc, x, y))
}

/// Step `i` of the accumulation of output `(r, c)`: `chain[i + 1]` is what `fma` gives for
/// `chain[i]`, `A[r][i]` and `B[i][c]`.
pub open spec fn dot_step<T, F: Fn(T, T, T) -> T>(
    fma: F,
    a: Seq<T>,
    b: Seq<T>,
    d: Dimensions,
    r: int,
    c: int,
    chain: Seq<T>,
    i: int,
) -> bool {
    fma.ensures((chain[i], a[r * d.k + i], b[i * d.n + c]), chain[i + 1])
}

/// `chain` is a run of the accumulation of output `(r, c)` from `zero`, over the shared
/// dimension in ascending order.
pub open spec fn dot_chain<T, F: Fn(T, T, T) -> T>(
    fma: F,
    zero: T,
    a: Seq<T>,
    b: Seq<T>,
    d: Dimensions,
    r: int,
    c: int,
    chain: Seq<T>,
) -> bool {
    &&& chain.len() == d.k + 1
    &&& chain[0] == zero
    &&& forall|i: int| 0 <= i < d.k ==> #[trigger] dot_step(fma, a, b, d, r, c, chain, i)
}

/// `v` is what accumulating output `(r, c)` of `A × B` yields: the dot product of row `r` of
/// `A` and column `c` of `B`.
pub open spec fn is_dot<T, F: Fn(T, T, T) -> T>(
    fma: F,
    zero: T,
    a: Seq<T>,
    b: Seq<T>,
    d: Dimensions,
    r: int,
    c: int,
    v: T,
) -> bool {
    exists|chain: Seq<T>| #[trigger] dot_chain(fma, zero, a, b, d, r, c, chain) && chain.last() == v
}

/// `r * k + i < m * k` whenever `r < m` and `i < k`.
pub proof fn lemma_index_in_bounds(r: int, i: int, m: int, k: int)
    requires
        0 <= r < m,
        0 <= i < k,
    ensures
        0 <= r * k + i < m * k,
{
    assert(0 <= r * k + i < m * k) by (nonlinear_arith)
        requires 0 <= r < m, 0 <= i < k;
}

/// The dot product of row `r` of `A` and column `c` of `B`.
pub fn dot<T: Copy, F: Fn(T, T, T) -> T>(
    a: &Vec<T>,
    b: &Vec<T>,
    d: Dimensions,
    r: u32,
    c: u32,
    zero: T,
    fma: &F,
) -> (v: T)
    requires
        inputs_fit(d, a@, b@),
        r < d.m,
        c < d.n,
        total(*fma),
    ensures
        is_dot(*fma, zero, a@, b@, d, r as int, c as int, v),
{
    let mut acc = zero;
    let ghost mut chain: Seq<T> = seq![zero];
    let mut i: u32 = 0;
    while i < d.k
        invariant
            inputs_fit(d, a@, b@),
            r < d.m,
            c < d.n,
            total(*fma),
            i <= d.k,
            chain.len() == i + 1,
            chain[0] == zero,
            chain.last() == acc,
            forall|j: int| 0 <= j < i ==> #[trigger] dot_step(*fma, a@, b@, d, r as int, c as int, chain, j),
        decreases d.k - i,
    {
        proof {
            lemma_index_in_bounds(r as int, i as int, d.m as int, d.k as int);
            lemma_index_in_bounds(i as int, c as int, d.k as int, d.n as int);
            assert(a@.len() == a.len() && b@.len() == b.len());
            assert(r as int * d.k as int <= r as int * d.k as int + i as int);
            assert(i as int * d.n as int <= i as int * d.n as int + c as int);
        }
        let x = a[(r as usize) * (d.k as usize) + (i as usize)];
        let y = b[(i as usize) * (d.n as usize) + (c as usize)];
        let next = fma(acc, x, y);
        proof {
            let old_chain = chain;
            chain = chain.push(next);
            assert forall|j: int| 0 <= j < i + 1 implies #[trigger] dot_step(*fma, a@, b@, d, r as int, c as int, chain, j) by {
                assert(chain[j] == old_chain.push(next)[j]);
                if j < i {
                    assert(dot_step(*fma, a@, b@, d, r as int, c as int, old_chain, j));
                }
            }
        }
        acc = next;
        i = i + 1;
    }
    proof {
        assert(dot_chain(*fma, zero, a@, b@, d, r as int, c as int, chain));
    }
    acc
}

/// Offset `r * n + c` of output `(r, c)` lies in the output, and names `(r, c)` back.
pub proof fn lemma_cell_index(r: int, c: int, m: int, n: int)
    requires
        0 <= r < m,
        0 <= c < n,
    ensures
        0 <= r * n + c < m * n,
        (r * n + c) / n == r,
        (r * n + c) % n == c,
{
    lemma_index_in_bounds(r, c, m, n);
    vstd::arithmetic::div_mod::lemma_fundamental_div_mod_converse(r * n + c, n, r, c);
}

/// Row of the output element at offset `idx`.
pub open spec fn cell_row(d: Dimensions, idx: int) -> int {
    idx / d.n as int
}

/// Column of the output element at offset `idx`.
pub open spec fn cell_col(d: Dimensions, idx: int) -> int {
    idx % d.n as int
}

/// Whether some entry of `cells` writes offset `idx`.
pub open spec fn has_index<T>(cells: Seq<(usize, T)>, idx: int) -> bool {
    exists|j: int| 0 <= j < cells.len() && cells[j].0 == idx
}

/// An entry of the output: an offset inside it, with the dot product of that output element.
pub open spec fn cell_ok<T, F: Fn(T, T, T) -> T>(
    d: Dimensions,
    a: Seq<T>,
    b: Seq<T>,
    zero: T,
    fma: F,
    e: (usize, T),
) -> bool {
    &&& e.0 < d.m * d.n
    &&& is_dot(fma, zero, a, b, d, cell_row(d, e.0 as int), cell_col(d, e.0 as int), e.1)
}

/// `cells` is what the invocation at `(x, y)` writes: entries of covered output elements only,
/// and one for each of them.
pub open spec fn tile_result<V: Cpu, T, F: Fn(T, T, T) -> T>(
    v: V,
    x: int,
    y: int,
    d: Dimensions,
    a: Seq<T>,
    b: Seq<T>,
    zero: T,
    fma: F,
    cells: Seq<(usize, T)>,
) -> bool {
    &&& forall|j: int|
        0 <= j < cells.len() ==> #[trigger] cell_ok(d, a, b, zero, fma, cells[j]) && v.covers(
            x,
            y,
            d,
            cell_row(d, cells[j].0 as int),
            cell_col(d, cells[j].0 as int),
        )
    &&& forall|idx: int|
        0 <= idx < d.m * d.n && #[trigger] v.covers(x, y, d, cell_row(d, idx), cell_col(d, idx))
            ==> has_index(cells, idx)
}

/// Kernel logic that runs on the host: one invocation computes the output elements it covers.
pub trait Cpu: GridComputation + Sized {
    /// Whether the invocation at `(x, y)` computes output element `(r, c)`.
    spec fn covers(&self, x: int, y: int, d: Dimensions, r: int, c: int) -> bool;

    /// The variant's launch grid reaches every `(x, y)` of an `m × n` output.
    proof fn lemma_grid_reaches(&self, m: u32, n: u32)
        ensures
            self.dispatch_defined(m, n),
            launch_fits(self.spec_workgroup(), self.spec_dispatch_count(m, n)),
            self.spec_dispatch_count(m, n).x * self.spec_workgroup().x >= m,
            self.spec_dispatch_count(m, n).y * self.spec_workgroup().y >= n,
    ;

    /// Some invocation `(x, y)` with `x < m` and `y < n` computes output element `(r, c)`.
    proof fn lemma_covers_output(&self, d: Dimensions, r: int, c: int)
        requires
            0 <= r < d.m,
            0 <= c < d.n,
        ensures
            exists|x: int, y: int| 0 <= x < d.m && 0 <= y < d.n && #[trigger] self.covers(x, y, d, r, c),
    ;

    /// The output entries that the invocation at `global_id` computes.
    fn tile<T: Copy, F: Fn(T, T, T) -> T>(
        &self,
        global_id: U32x3,
        d: Dimensions,
        a: &Vec<T>,
        b: &Vec<T>,
        zero: T,
        fma: &F,
    ) -> (cells: Vec<(usize, T)>)
        requires
            inputs_fit(d, a@, b@),
            d.m * d.n <= usize::MAX,
            total(*fma),
        ensures
            forall|j: int|
                0 <= j < cells.len() ==> #[trigger] cell_ok(d, a@, b@, zero, *fma, cells[j]) && self.covers(
                    global_id.x as int,
                    global_id.y as int,
                    d,
                    cell_row(d, cells[j].0 as int),
                    cell_col(d, cells[j].0 as int),
                ),
            forall|idx: int|
                0 <= idx < d.m * d.n && #[trigger] self.covers(
                    global_id.x as int,
                    global_id.y as int,
                    d,
                    cell_row(d, idx),
                    cell_col(d, idx),
                ) ==> has_index(cells@, idx),
    ;

    /// Runs the invocation at `global_id` against the shared output: the elements it covers get
    /// their dot products, the others keep their values.
    fn call<T: Copy, F: Fn(T, T, T) -> T>(
        &self,
        global_id: U32x3,
        d: Dimensions,
        a: &Vec<T>,
        b: &Vec<T>,
        results: &mut Vec<T>,
        zero: T,
        fma: &F,
    )
        requires
            inputs_fit(d, a@, b@),
            d.m * d.n <= usize::MAX,
            total(*fma),
            old(results).len() == d.m * d.n,
        ensures
            final(results).len() == old(results).len(),
            forall|idx: int|
                0 <= idx < d.m * d.n && #[trigger] self.covers(
                    global_id.x as int,
                    global_id.y as int,
                    d,
                    cell_row(d, idx),
                    cell_col(d, idx),
                ) ==> is_dot(*fma, zero, a@, b@, d, cell_row(d, idx), cell_col(d, idx), final(results)[idx]),
            forall|idx: int|
                0 <= idx < d.m * d.n && !#[trigger] self.covers(
                    global_id.x as int,
                    global_id.y as int,
                    d,
                    cell_row(d, idx),
                    cell_col(d, idx),
                ) ==> final(results)[idx] == old(results)[idx],
    {
        let cells = self.tile(global_id, d, a, b, zero, fma);
        proof {
            assert forall|j: int| 0 <= j < cells.len() implies #[trigger] cells[j].0 < results.len() by {
                assert(cell_ok(d, a@, b@, zero, *fma, cells[j]));
            }
        }
        let ghost before = results@;
        scatter(results, &cells);
        proof {
            let gx = global_id.x as int;
            let gy = global_id.y as int;
            assert forall|idx: int|
                0 <= idx < d.m * d.n && #[trigger] self.covers(gx, gy, d, cell_row(d, idx), cell_col(d, idx))
                    implies is_dot(*fma, zero, a@, b@, d, cell_row(d, idx), cell_col(d, idx), results[idx]) by {
                assert(has_index(cells@, idx));
                assert(written_from(cells@, idx, results[idx]));
                let j = choose|j: int| 0 <= j < cells.len() && (#[trigger] cells@[j]).0 == idx && cells@[j].1 == results[idx];
                assert(cell_ok(d, a@, b@, zero, *fma, cells[j]));
            }
            assert forall|idx: int|
                0 <= idx < d.m * d.n && !#[trigger] self.covers(gx, gy, d, cell_row(d, idx), cell_col(d, idx))
                    implies results[idx] == before[idx] by {
                if has_index(cells@, idx) {
                    let j = choose|j: int| 0 <= j < cells.len() && (#[trigger] cells@[j]).0 == idx;
                    assert(cell_ok(d, a@, b@, zero, *fma, cells[j]));
                }
            }
        }
    }
}

/// Whether output element `(r, c)` lies in the `h × w` block whose top-left element is
/// `(row0, col0)`.
pub open spec fn in_block(r: int, c: int, row0: int, col0: int, h: int, w: int) -> bool {
    &&& row0 <= r < row0 + h
    &&& col0 <= c < col0 + w
}

/// The entries of the `h × w` block at `(row0, col0)` that lie inside the output, each with its
/// dot product, computed row by row.
pub fn block_tile<T: Copy, F: Fn(T, T, T) -> T>(
    row0: u64,
    col0: u64,
    h: u64,
    w: u64,
    d: Dimensions,
    a: &Vec<T>,
    b: &Vec<T>,
    zero: T,
    fma: &F,
) -> (cells: Vec<(usize, T)>)
    requires
        inputs_fit(d, a@, b@),
        d.m * d.n <= usize::MAX,
        total(*fma),
        row0 + h <= u64::MAX,
        col0 + w <= u64::MAX,
    ensures
        forall|j: int|
            0 <= j < cells.len() ==> #[trigger] cell_ok(d, a@, b@, zero, *fma, cells[j]) && in_block(
                cell_row(d, cells[j].0 as int),
                cell_col(d, cells[j].0 as int),
                row0 as int,
                col0 as int,
                h as int,
                w as int,
            ),
        forall|idx: int|
            0 <= idx < d.m * d.n && #[trigger] in_block(
                cell_row(d, idx),
                cell_col(d, idx),
                row0 as int,
                col0 as int,
                h as int,
                w as int,
            ) ==> has_index(cells@, idx),
{
    let mut cells: Vec<(usize, T)> = Vec::new();
    let mut i: u64 = 0;
    while i < h
        invariant
            inputs_fit(d, a@, b@),
            d.m * d.n <= usize::MAX,
            total(*fma),
            row0 + h <= u64::MAX,
            col0 + w <= u64::MAX,
            i <= h,
            forall|e: int|
                0 <= e < cells.len() ==> #[trigger] cell_ok(d, a@, b@, zero, *fma, cells[e]) && in_block(
                    cell_row(d, cells[e].0 as int),
                    cell_col(d, cells[e].0 as int),
                    row0 as int,
                    col0 as int,
                    h as int,
                    w as int,
                ),
            forall|idx: int|
                0 <= idx < d.m * d.n && #[trigger] in_block(cell_row(d, idx), cell_col(d, idx), row0 as int, col0 as int, h as int, w as int)
                    && cell_row(d, idx) < row0 + i ==> has_index(cells@, idx),
        decreases h - i,
    {
        let mut j: u64 = 0;
        while j < w
            invariant
                inputs_fit(d, a@, b@),
                d.m * d.n <= usize::MAX,
                total(*fma),
                row0 + h <= u64::MAX,
                col0 + w <= u64::MAX,
                i < h,
                j <= w,
                forall|e: int|
                    0 <= e < cells.len() ==> #[trigger] cell_ok(d, a@, b@, zero, *fma, cells[e]) && in_block(
                        cell_row(d, cells[e].0 as int),
                        cell_col(d, cells[e].0 as int),
                        row0 as int,
                        col0 as int,
                        h as int,
                        w as int,
                    ),
                forall|idx: int|
                    0 <= idx < d.m * d.n && #[trigger] in_block(cell_row(d, idx), cell_col(d, idx), row0 as int, col0 as int, h as int, w as int)
                        && cell_row(d, idx) < row0 + i ==> has_index(cells@, idx),
                forall|idx: int|
                    0 <= idx < d.m * d.n && #[trigger] in_block(cell_row(d, idx), cell_col(d, idx), row0 as int, col0 as int, h as int, w as int)
                        && cell_row(d, idx) == row0 + i && cell_col(d, idx) < col0 + j ==> has_index(cells@, idx),
            decreases w - j,
        {
            let r = row0 + i;
            let c = col0 + j;
            let ghost old_cells = cells@;
            if r < d.m as u64 && c < d.n as u64 {
                let v = dot(a, b, d, r as u32, c as u32, zero, fma);
                proof {
                    lemma_cell_index(r as int, c as int, d.m as int, d.n as int);
                }
                let idx = (r as usize) * (d.n as usize) + (c as usize);
                cells.push((idx, v));
                proof {
                    assert(cells@[cells.len() - 1] == (idx, v));
                    assert(cell_row(d, idx as int) == r && cell_col(d, idx as int) == c);
                    assert(cell_ok(d, a@, b@, zero, *fma, (idx, v)));
                    assert(in_block(r as int, c as int, row0 as int, col0 as int, h as int, w as int));
                    assert forall|e: int|
                        0 <= e < cells.len() implies #[trigger] cell_ok(d, a@, b@, zero, *fma, cells[e]) && in_block(
                            cell_row(d, cells[e].0 as int),
                            cell_col(d, cells[e].0 as int),
                            row0 as int,
                            col0 as int,
                            h as int,
                            w as int,
                        ) by {
                        if e < old_cells.len() {
                            assert(cells@[e] == old_cells[e]);
                        }
                    }
                }
            }
            proof {
                assert forall|idx: int|
                    0 <= idx < d.m * d.n && #[trigger] in_block(cell_row(d, idx), cell_col(d, idx), row0 as int, col0 as int, h as int, w as int)
                        && (cell_row(d, idx) < row0 + i || (cell_row(d, idx) == row0 + i && cell_col(d, idx) < col0 + j + 1))
                        implies has_index(cells@, idx) by {
                    if cell_row(d, idx) < row0 + i || cell_col(d, idx) < col0 + j {
                        let k = choose|k: int| 0 <= k < old_cells.len() && old_cells[k].0 == idx;
                        assert(cells@[k] == old_cells[k]);
                    } else {
                        lemma_output_cell(idx, d);
                        assert(cells@[cells.len() - 1].0 == idx);
                    }
                }
            }
            j = j + 1;
        }
        i = i + 1;
    }
    cells
}

impl Cpu for Isomorphic {
    /// The invocation at `(x, y)` computes the 4 × 4 tile at rows `4x..` and columns `4y..`.
    open spec fn covers(&self, x: int, y: int, d: Dimensions, r: int, c: int) -> bool {
        in_block(r, c, x * TILE_M, y * TILE_N, TILE_M as int, TILE_N as int)
    }

    proof fn lemma_grid_reaches(&self, m: u32, n: u32) {
        crate::variants::lemma_square_reaches(m, n);
    }

    proof fn lemma_covers_output(&self, d: Dimensions, r: int, c: int) {
        lemma_tile_of(r);
        lemma_tile_of(c);
        assert(self.covers(r / 4, c / 4, d, r, c));
    }

    fn tile<T: Copy, F: Fn(T, T, T) -> T>(
        &self,
        global_id: U32x3,
        d: Dimensions,
        a: &Vec<T>,
        b: &Vec<T>,
        zero: T,
        fma: &F,
    ) -> (cells: Vec<(usize, T)>) {
        let row = (global_id.x as u64) * (TILE_M as u64);
        let col = (global_id.y as u64) * (TILE_N as u64);
        assert(row <= 4 * u32::MAX && col <= 4 * u32::MAX);
        block_tile(row, col, TILE_M as u64, TILE_N as u64, d, a, b, zero, fma)
    }
}

impl Cpu for Tiling2dSimd {
    /// The invocation at `(x, y)` computes the 4 × 4 tile at rows `4x..` and columns `4y..`.
    open spec fn covers(&self, x: int, y: int, d: Dimensions, r: int, c: int) -> bool {
        in_block(r, c, x * TILE_M, y * TILE_N, TILE_M as int, TILE_N as int)
    }

    proof fn lemma_grid_reaches(&self, m: u32, n: u32) {
        crate::variants::lemma_square_reaches(m, n);
    }

    proof fn lemma_covers_output(&self, d: Dimensions, r: int, c: int) {
        lemma_tile_of(r);
        lemma_tile_of(c);
        assert(self.covers(r / 4, c / 4, d, r, c));
    }

    fn tile<T: Copy, F: Fn(T, T, T) -> T>(
        &self,
        global_id: U32x3,
        d: Dimensions,
        a: &Vec<T>,
        b: &Vec<T>,
        zero: T,
        fma: &F,
    ) -> (cells: Vec<(usize, T)>) {
        let row = (global_id.x as u64) * (TILE_M as u64);
        let col = (global_id.y as u64) * (TILE_N as u64);
        assert(row <= 4 * u32::MAX && col <= 4 * u32::MAX);
        block_tile(row, col, TILE_M as u64, TILE_N as u64, d, a, b, zero, fma)
    }
}

impl Cpu for Workgroup2d {
    /// The invocation at `(x, y)` computes output element `(x, y)`.
    open spec fn covers(&self, x: int, y: int, d: Dimensions, r: int, c: int) -> bool {
        in_block(r, c, x, y, 1, 1)
    }

    proof fn lemma_grid_reaches(&self, m: u32, n: u32) {
        crate::variants::lemma_square_reaches(m, n);
    }

    proof fn lemma_covers_output(&self, d: Dimensions, r: int, c: int) {
        assert(self.covers(r, c, d, r, c));
    }

    fn tile<T: Copy, F: Fn(T, T, T) -> T>(
        &self,
        global_id: U32x3,
        d: Dimensions,
        a: &Vec<T>,
        b: &Vec<T>,
        zero: T,
        fma: &F,
    ) -> (cells: Vec<(usize, T)>) {
        block_tile(global_id.x as u64, global_id.y as u64, 1, 1, d, a, b, zero, fma)
    }
}

impl Cpu for Tiling1d {
    /// The invocation at `(x, y)` computes the row tile of four elements at row `x`, columns
    /// `4y..`.
    open spec fn covers(&self, x: int, y: int, d: Dimensions, r: int, c: int) -> bool {
        in_block(r, c, x, y * TILE_SIZE, 1, TILE_SIZE as int)
    }

    proof fn lemma_grid_reaches(&self, m: u32, n: u32) {
        crate::variants::lemma_square_reaches(m, n);
    }

    proof fn lemma_covers_output(&self, d: Dimensions, r: int, c: int) {
        lemma_tile_of(c);
        assert(self.covers(r, c / 4, d, r, c));
    }

    fn tile<T: Copy, F: Fn(T, T, T) -> T>(
        &self,
        global_id: U32x3,
        d: Dimensions,
        a: &Vec<T>,
        b: &Vec<T>,
        zero: T,
        fma: &F,
    ) -> (cells: Vec<(usize, T)>) {
        let col = (global_id.y as u64) * (TILE_SIZE as u64);
        assert(col <= 4 * u32::MAX) by (nonlinear_arith)
            requires col == global_id.y * 4, global_id.y <= u32::MAX;
        block_tile(global_id.x as u64, col, 1, TILE_SIZE as u64, d, a, b, zero, fma)
    }
}

impl Cpu for Tiling1dLoop {
    /// The invocation at `(x, y)` computes the row tile of four elements at row `x`, columns
    /// `4y..`, one offset per pass of its loop.
    open spec fn covers(&self, x: int, y: int, d: Dimensions, r: int, c: int) -> bool {
        in_block(r, c, x, y * TILE_SIZE, 1, TILE_SIZE as int)
    }

    proof fn lemma_grid_reaches(&self, m: u32, n: u32) {
        crate::variants::lemma_square_reaches(m, n);
    }

    proof fn lemma_covers_output(&self, d: Dimensions, r: int, c: int) {
        lemma_tile_of(c);
        assert(self.covers(r, c / 4, d, r, c));
    }

    fn tile<T: Copy, F: Fn(T, T, T) -> T>(
        &self,
        global_id: U32x3,
        d: Dimensions,
        a: &Vec<T>,
        b: &Vec<T>,
        zero: T,
        fma: &F,
    ) -> (cells: Vec<(usize, T)>) {
        let col = (global_id.y as u64) * (TILE_SIZE as u64);
        assert(col <= 4 * u32::MAX) by (nonlinear_arith)
            requires col == global_id.y * 4, global_id.y <= u32::MAX;
        block_tile(global_id.x as u64, col, 1, TILE_SIZE as u64, d, a, b, zero, fma)
    }
}

/// The tile of four that holds index `i` starts at `4 * (i / 4)`, no later than `i`.
proof fn lemma_tile_of(i: int)
    requires
        i >= 0,
    ensures
        0 <= i / 4 <= i,
        4 * (i / 4) <= i < 4 * (i / 4) + 4,
{
    vstd::arithmetic::div_mod::lemma_fundamental_div_mod(i, 4);
    vstd::arithmetic::div_mod::lemma_mod_bound(i, 4);
}

/// An offset inside the output names a row below `m` and a column below `n`.
pub proof fn lemma_output_cell(idx: int, d: Dimensions)
    requires
        0 <= idx < d.m * d.n,
    ensures
        d.n > 0,
        0 <= cell_row(d, idx) < d.m,
        0 <= cell_col(d, idx) < d.n,
        idx == cell_row(d, idx) * d.n + cell_col(d, idx),
{
    if d.n == 0 {
        assert(d.m * d.n == 0) by (nonlinear_arith)
            requires d.n == 0;
    }
    vstd::arithmetic::div_mod::lemma_fundamental_div_mod(idx, d.n as int);
    vstd::arithmetic::div_mod::lemma_mod_bound(idx, d.n as int);
    vstd::arithmetic::div_mod::lemma_div_pos_is_pos(idx, d.n as int);
    let q = idx / d.n as int;
    assert(q < d.m) by (nonlinear_arith)
        requires idx == d.n * q + idx % d.n as int, idx % d.n as int >= 0, idx < d.m * d.n, d.n > 0;
    assert(d.n * q == q * d.n) by (nonlinear_arith);
}

/// Some entry of `cells` writes `v` at offset `idx`.
pub open spec fn written_from<T>(cells: Seq<(usize, T)>, idx: int, v: T) -> bool {
    exists|j: int| 0 <= j < cells.len() && cells[j].0 == idx && cells[j].1 == v
}

/// Writes each entry `(idx, v)` of `cells` into `results[idx]`, in order.
pub fn scatter<T: Copy>(results: &mut Vec<T>, cells: &Vec<(usize, T)>)
    requires
        forall|j: int| 0 <= j < cells.len() ==> #[trigger] cells[j].0 < old(results).len(),
    ensures
        final(results).len() == old(results).len(),
        forall|idx: int|
            0 <= idx < old(results).len() && #[trigger] has_index(cells@, idx) ==> written_from(
                cells@,
                idx,
                final(results)[idx],
            ),
        forall|idx: int|
            0 <= idx < old(results).len() && !#[trigger] has_index(cells@, idx) ==> final(results)[idx]
                == old(results)[idx],
{
    let ghost start = results@;
    let mut j: usize = 0;
    while j < cells.len()
        invariant
            results.len() == start.len(),
            j <= cells.len(),
            forall|e: int| 0 <= e < cells.len() ==> #[trigger] cells[e].0 < start.len(),
            forall|idx: int|
                0 <= idx < start.len() && #[trigger] has_index(cells@.take(j as int), idx) ==> written_from(
                    cells@,
                    idx,
                    results[idx],
                ),
            forall|idx: int|
                0 <= idx < start.len() && !#[trigger] has_index(cells@.take(j as int), idx) ==> results[idx]
                    == start[idx],
        decreases cells.len() - j,
    {
        let (idx, v) = cells[j];
        let ghost before = results@;
        results.set(idx, v);
        proof {
            assert(cells@.take(j as int + 1) == cells@.take(j as int).push(cells[j as int]));
            assert forall|i: int|
                0 <= i < start.len() && #[trigger] has_index(cells@.take(j as int + 1), i) implies written_from(
                    cells@,
                    i,
                    results[i],
                ) by {
                if i == idx {
                    assert(cells@[j as int].0 == i && cells@[j as int].1 == results[i]);
                } else {
                    let pre = cells@.take(j as int + 1);
                    let w = choose|w: int| 0 <= w < pre.len() && (#[trigger] pre[w]).0 == i;
                    assert(w < j);
                    assert(cells@.take(j as int)[w].0 == i);
                    assert(has_index(cells@.take(j as int), i));
                }
            }
            assert forall|i: int|
                0 <= i < start.len() && !#[trigger] has_index(cells@.take(j as int + 1), i) implies results[i]
                    == start[i] by {
                if i == idx {
                    assert(cells@.take(j as int + 1)[j as int].0 == i);
                }
                if has_index(cells@.take(j as int), i) {
                    let pre = cells@.take(j as int);
                    let w = choose|w: int| 0 <= w < pre.len() && (#[trigger] pre[w]).0 == i;
                    assert(cells@.take(j as int + 1)[w].0 == i);
                }
            }
        }
        j = j + 1;
    }
    proof {
        assert(cells@.take(cells.len() as int) == cells@);
    }
}

} // verus!
