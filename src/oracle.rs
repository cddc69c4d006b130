//! A correctness oracle independent of the backends: the top-left corner of an output checked
//! against dot products computed directly.
use vstd::prelude::*;
use crate::kernel::{dot, inputs_fit, is_dot, lemma_cell_index, total};
use crate::settings::Dimensions;

verus! {

/// Side of the checked corner along an axis of `extent` elements.
pub open spec fn corner(extent: u32) -> int {
    if extent < 2 { extent as int } else { 2 }
}

/// Output element `(r, c)` is close, by `close`, to a dot product of row `r` and column `c`.
pub open spec fn element_agrees<T, F: Fn(T, T, T) -> T, C: Fn(T, T) -> bool>(
    fma: F,
    zero: T,
    close: C,
    a: Seq<T>,
    b: Seq<T>,
    d: Dimensions,
    out: Seq<T>,
    r: int,
    c: int,
    verdict: bool,
) -> bool {
    exists|expected: T|
        is_dot(fma, zero, a, b, d, r, c, expected) && #[trigger] close.ensures((out[r * d.n + c], expected), verdict)
}

/// Checks the top-left `min(m, 2) × min(n, 2)` corner of `result` against dot products
/// computed directly, element by element in row-major order, with `close(actual, expected)`.
/// Returns the first element that is not close.
pub fn verify_results<T: Copy, F: Fn(T, T, T) -> T, C: Fn(T, T) -> bool>(
    a: &Vec<T>,
    b: &Vec<T>,
    result: &Vec<T>,
    m: u32,
    k: u32,
    n: u32,
    zero: T,
    fma: F,
    close: C,
) -> (r: Result<(), (u32, u32)>)
    requires
        inputs_fit(Dimensions { m, k, n }, a@, b@),
        result.len() == m * n,
        total(fma),
        forall|x: T, y: T| #[trigger] close.requires((x, y)),
    ensures
        r is Ok ==> forall|i: int, j: int|
            0 <= i < corner(m) && 0 <= j < corner(n) ==> #[trigger] element_agrees(
                fma,
                zero,
                close,
                a@,
                b@,
                Dimensions { m, k, n },
                result@,
                i,
                j,
                true,
            ),
        r matches Err((i, j)) ==> {
            &&& i < corner(m)
            &&& j < corner(n)
            &&& element_agrees(fma, zero, close, a@, b@, Dimensions { m, k, n }, result@, i as int, j as int, false)
        },
{
    let d = Dimensions::new(m, k, n);
    let rows: u32 = if m < 2 { m } else { 2 };
    let cols: u32 = if n < 2 { n } else { 2 };
    let mut i: u32 = 0;
    while i < rows
        invariant
            inputs_fit(d, a@, b@),
            d == (Dimensions { m, k, n }),
            result.len() == m * n,
            total(fma),
            forall|x: T, y: T| #[trigger] close.requires((x, y)),
            rows == corner(m),
            cols == corner(n),
            i <= rows,
            forall|ii: int, jj: int|
                0 <= ii < i && 0 <= jj < cols ==> #[trigger] element_agrees(fma, zero, close, a@, b@, d, result@, ii, jj, true),
        decreases rows - i,
    {
        let mut j: u32 = 0;
        while j < cols
            invariant
                inputs_fit(d, a@, b@),
                d == (Dimensions { m, k, n }),
                result.len() == m * n,
                total(fma),
                forall|x: T, y: T| #[trigger] close.requires((x, y)),
                rows == corner(m),
                cols == corner(n),
                i < rows,
                j <= cols,
                forall|ii: int, jj: int|
                    0 <= ii < i && 0 <= jj < cols ==> #[trigger] element_agrees(fma, zero, close, a@, b@, d, result@, ii, jj, true),
                forall|jj: int|
                    0 <= jj < j ==> #[trigger] element_agrees(fma, zero, close, a@, b@, d, result@, i as int, jj, true),
            decreases cols - j,
        {
            let expected = dot(a, b, d, i, j, zero, &fma);
            proof {
                lemma_cell_index(i as int, j as int, m as int, n as int);
            }
            let actual = result[(i as usize) * (n as usize) + (j as usize)];
            let ok = close(actual, expected);
            proof {
                assert(close.ensures((result@[i * n + j], expected), ok));
            }
            if !ok {
                return Err((i, j));
            }
            j = j + 1;
        }
        i = i + 1;
    }
    Ok(())
}

} // verus!
