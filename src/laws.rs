//! Properties that relate the drivers, the kernel and the reference product.
use vstd::prelude::*;
use crate::cpu::multiply_result;
use crate::kernel::{dot_chain, dot_step, is_dot, Cpu};
use crate::settings::Dimensions;

verus! {

/// The step gives one result for the same arguments.
pub open spec fn deterministic<T, F: Fn(T, T, T) -> T>(fma: F) -> bool {
    forall|acc: T, x: T, y: T, r1: T, r2: T|
        #![trigger fma.ensures((acc, x, y), r1), fma.ensures((acc, x, y), r2)]
        fma.ensures((acc, x, y), r1) && fma.ensures((acc, x, y), r2) ==> r1 == r2
}

proof fn lemma_chains_agree<T, F: Fn(T, T, T) -> T>(
    fma: F,
    zero: T,
    a: Seq<T>,
    b: Seq<T>,
    d: Dimensions,
    r: int,
    c: int,
    c1: Seq<T>,
    c2: Seq<T>,
    i: int,
)
    requires
        deterministic(fma),
        dot_chain(fma, zero, a, b, d, r, c, c1),
        dot_chain(fma, zero, a, b, d, r, c, c2),
        0 <= i <= d.k,
    ensures
        c1[i] == c2[i],
    decreases i,
{
    if i > 0 {
        lemma_chains_agree(fma, zero, a, b, d, r, c, c1, c2, i - 1);
        assert(dot_step(fma, a, b, d, r, c, c1, i - 1));
        assert(dot_step(fma, a, b, d, r, c, c2, i - 1));
    }
}

/// With a deterministic step, an output element has one dot product.
pub proof fn dot_is_unique<T, F: Fn(T, T, T) -> T>(
    fma: F,
    zero: T,
    a: Seq<T>,
    b: Seq<T>,
    d: Dimensions,
    r: int,
    c: int,
    v1: T,
    v2: T,
)
    requires
        deterministic(fma),
        is_dot(fma, zero, a, b, d, r, c, v1),
        is_dot(fma, zero, a, b, d, r, c, v2),
    ensures
        v1 == v2,
{
    let c1 = choose|c1: Seq<T>| #[trigger] dot_chain(fma, zero, a, b, d, r, c, c1) && c1.last() == v1;
    let c2 = choose|c2: Seq<T>| #[trigger] dot_chain(fma, zero, a, b, d, r, c, c2) && c2.last() == v2;
    lemma_chains_agree(fma, zero, a, b, d, r, c, c1, c2, d.k as int);
}

/// With a deterministic step, two CPU multiplies of the same inputs give the same outcome: the
/// same error, or outputs equal element by element. This holds of two calls on one driver, of
/// two fresh drivers, of the single- and the multi-threaded driver, and of two variants, since
/// every multiply returns the reference product. A step that may give different results for the
/// same arguments gives no such guarantee: the outputs are then each a reference product, not
/// necessarily the same one.
pub proof fn multiply_is_deterministic<V1: Cpu, V2: Cpu, T, F: Fn(T, T, T) -> T>(
    v1: V1,
    v2: V2,
    d: Dimensions,
    a: Seq<T>,
    b: Seq<T>,
    zero: T,
    fma: F,
    r1: Result<Vec<T>, crate::error::MatrixMultiplyError>,
    r2: Result<Vec<T>, crate::error::MatrixMultiplyError>,
)
    requires
        deterministic(fma),
        multiply_result(v1, d, a, b, zero, fma, r1),
        multiply_result(v2, d, a, b, zero, fma, r2),
    ensures
        r1 is Ok <==> r2 is Ok,
        r1 is Err ==> r1 == r2,
        r1 is Ok ==> r1->Ok_0@ == r2->Ok_0@,
{
    if r1 is Ok {
        let o1 = r1->Ok_0@;
        let o2 = r2->Ok_0@;
        assert forall|i: int| 0 <= i < o1.len() implies o1[i] == o2[i] by {
            crate::kernel::lemma_output_cell(i, d);
            let r = crate::kernel::cell_row(d, i);
            let c = crate::kernel::cell_col(d, i);
            assert(o1[r * d.n + c] == o1[i]);
            dot_is_unique(fma, zero, a, b, d, r, c, o1[r * d.n + c], o2[r * d.n + c]);
        }
        assert(o1 =~= o2);
    }
}

} // verus!
