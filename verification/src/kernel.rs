//! The windowed weighted sum at the heart of the filter.

use vstd::prelude::*;

verus! {

/// `out` is a value that one round of `step` can yield for the running value
/// `acc`, the sample `a` and its weight `b`.
pub open spec fn step_yields<T, F: Fn(T, T, T) -> T>(step: F, acc: T, a: T, b: T, out: T) -> bool {
    call_ensures(step, (acc, a, b), out)
}

/// `out` is a value that accumulating the first `n` products of `data` and
/// `coeffs` in index order, starting from `zero`, can yield: each round hands
/// the running value, the sample and its weight to `step`.
pub open spec fn folds_to<T, F: Fn(T, T, T) -> T>(
    step: F,
    zero: T,
    data: Seq<T>,
    coeffs: Seq<T>,
    n: nat,
    out: T,
) -> bool
    decreases n,
{
    if n == 0 {
        out == zero
    } else {
        exists|acc: T|
            folds_to(step, zero, data, coeffs, (n - 1) as nat, acc) && #[trigger] step_yields(
                step,
                acc,
                data[n - 1],
                coeffs[n - 1],
                out,
            )
    }
}

/// `step` yields one value only for each running value, sample and weight.
pub open spec fn single_valued<T, F: Fn(T, T, T) -> T>(step: F) -> bool {
    forall|acc: T, a: T, b: T, r1: T, r2: T|
        #[trigger] step_yields(step, acc, a, b, r1) && #[trigger] step_yields(step, acc, a, b, r2)
            ==> r1 == r2
}

/// With a step that yields one value only, a weighted sum has one value
/// only: summing in index order leaves nothing else open.
pub proof fn lemma_fold_unique<T, F: Fn(T, T, T) -> T>(
    step: F,
    zero: T,
    data: Seq<T>,
    coeffs: Seq<T>,
    n: nat,
    r1: T,
    r2: T,
)
    requires
        single_valued(step),
        folds_to(step, zero, data, coeffs, n, r1),
        folds_to(step, zero, data, coeffs, n, r2),
    ensures
        r1 == r2,
    decreases n,
{
    if n > 0 {
        let acc1 = choose|acc: T|
            folds_to(step, zero, data, coeffs, (n - 1) as nat, acc) && #[trigger] step_yields(
                step,
                acc,
                data[n - 1],
                coeffs[n - 1],
                r1,
            );
        let acc2 = choose|acc: T|
            folds_to(step, zero, data, coeffs, (n - 1) as nat, acc) && #[trigger] step_yields(
                step,
                acc,
                data[n - 1],
                coeffs[n - 1],
                r2,
            );
        lemma_fold_unique(step, zero, data, coeffs, (n - 1) as nat, acc1, acc2);
    }
}

/// The number of products that a dot product of two sequences takes in.
pub open spec fn paired_len(a: int, b: int) -> nat {
    if a <= b {
        a as nat
    } else {
        b as nat
    }
}

/// Overwrites `buf` with the weighted sum of `data` under `coeffs`,
/// accumulated from `zero` in index order. Where the two differ in length,
/// the longer one's tail takes no part.
pub fn dot_prod_update<T: Copy, F: Fn(T, T, T) -> T>(
    buf: &mut T,
    data: &[T],
    coeffs: &[T],
    zero: T,
    step: &F,
)
    requires
        forall|acc: T, a: T, b: T| call_requires(*step, (acc, a, b)),
    ensures
        folds_to(
            *step,
            zero,
            data@,
            coeffs@,
            paired_len(data@.len() as int, coeffs@.len() as int),
            *final(buf),
        ),
{
    let n: usize = if data.len() <= coeffs.len() {
        data.len()
    } else {
        coeffs.len()
    };
    let mut acc: T = zero;
    let mut j: usize = 0;
    while j < n
        invariant
            j <= n,
            n <= data@.len(),
            n <= coeffs@.len(),
            forall|acc: T, a: T, b: T| call_requires(*step, (acc, a, b)),
            folds_to(*step, zero, data@, coeffs@, j as nat, acc),
        decreases n - j,
    {
        let next: T = step(acc, data[j], coeffs[j]);
        proof {
            let m: nat = (j + 1) as nat;
            assert(folds_to(*step, zero, data@, coeffs@, (m - 1) as nat, acc));
            assert(step_yields(*step, acc, data@[m - 1], coeffs@[m - 1], next));
            assert(folds_to(*step, zero, data@, coeffs@, m, next));
        }
        acc = next;
        j = j + 1;
    }
    *buf = acc;
}

} // verus!
