//! Sliding a weight vector across a sample buffer.

use crate::error::FilterError;
use crate::kernel::{dot_prod_update, folds_to, lemma_fold_unique, single_valued};
use rayon::iter::{IndexedParallelIterator, IntoParallelRefMutIterator, ParallelIterator};
use rayon::slice::ParallelSlice;
use vstd::prelude::*;

verus! {

/// Number of samples under one window of half-width `half`.
pub open spec fn window_size(half: int) -> int {
    2 * half + 1
}

/// Number of positions at which a whole window of half-width `half` fits
/// into `len` samples.
pub open spec fn body_size(len: int, half: int) -> int {
    if len >= 2 * half {
        len - 2 * half
    } else {
        0
    }
}

/// `out` is a value that the weighted sum of the window starting at sample
/// `k` can yield.
pub open spec fn window_value<T, F: Fn(T, T, T) -> T>(
    step: F,
    zero: T,
    data: Seq<T>,
    coeffs: Seq<T>,
    k: int,
    out: T,
) -> bool {
    folds_to(step, zero, data.subrange(k, k + coeffs.len()), coeffs, coeffs.len(), out)
}

/// `after` is `before` with every interior entry replaced by a weighted sum
/// of the window centred on it, and the `half` entries at either end kept.
pub open spec fn convolved<T, F: Fn(T, T, T) -> T>(
    step: F,
    zero: T,
    data: Seq<T>,
    coeffs: Seq<T>,
    half: int,
    before: Seq<T>,
    after: Seq<T>,
) -> bool {
    &&& after.len() == before.len()
    &&& forall|i: int|
        0 <= i < before.len() && !(half <= i < half + body_size(data.len() as int, half))
            ==> #[trigger] after[i] == before[i]
    &&& forall|i: int|
        half <= i < half + body_size(data.len() as int, half) ==> window_value(
            step,
            zero,
            data,
            coeffs,
            i - half,
            #[trigger] after[i],
        )
}

/// With a step that yields one value only, the convolved buffer is one
/// buffer only: whichever way the interior positions are worked through, in
/// turn or shared out among threads, the same samples come out.
pub proof fn lemma_convolved_unique<T, F: Fn(T, T, T) -> T>(
    step: F,
    zero: T,
    data: Seq<T>,
    coeffs: Seq<T>,
    half: int,
    before: Seq<T>,
    one: Seq<T>,
    other: Seq<T>,
)
    requires
        single_valued(step),
        convolved(step, zero, data, coeffs, half, before, one),
        convolved(step, zero, data, coeffs, half, before, other),
    ensures
        one == other,
{
    assert forall|i: int| 0 <= i < one.len() implies one[i] == other[i] by {
        if half <= i < half + body_size(data.len() as int, half) {
            lemma_fold_unique(
                step,
                zero,
                data.subrange(i - half, i - half + coeffs.len()),
                coeffs,
                coeffs.len(),
                one[i],
                other[i],
            );
        } else {
            assert(one[i] == before[i]);
            assert(other[i] == before[i]);
        }
    }
    assert(one =~= other);
}

/// Number of interior positions for `len` samples and half-width `half`.
pub fn body_len(len: usize, half: usize) -> (n: usize)
    ensures
        n == body_size(len as int, half as int),
{
    if half <= len / 2 {
        len - 2 * half
    } else {
        0
    }
}

/// Applies the weights `coeffs`, one per offset of a window of half-width
/// `half`, at every interior position of `data`, and stores the sums at the
/// same positions of `buf`. The first and last `half` entries of `buf` are
/// left as the caller set them.
pub fn convolve<T: Copy, F: Fn(T, T, T) -> T>(
    buf: &mut [T],
    data: &[T],
    coeffs: &[T],
    half: usize,
    zero: T,
    step: &F,
) -> (res: Result<(), FilterError>)
    requires
        coeffs@.len() == window_size(half as int),
        forall|acc: T, a: T, b: T| call_requires(*step, (acc, a, b)),
    ensures
        if old(buf)@.len() != data@.len() {
            res == Err::<(), FilterError>(FilterError::LengthMismatch) && final(buf)@ == old(buf)@
        } else {
            res is Ok && convolved(
                *step,
                zero,
                data@,
                coeffs@,
                half as int,
                old(buf)@,
                final(buf)@,
            )
        },
{
    if buf.len() != data.len() {
        return Err(FilterError::LengthMismatch);
    }
    let len: usize = data.len();
    let body: usize = body_len(len, half);
    let width: usize = coeffs.len();
    let mut k: usize = 0;
    while k < body
        invariant
            k <= body,
            len == data@.len(),
            body == body_size(data@.len() as int, half as int),
            width == coeffs@.len(),
            coeffs@.len() == window_size(half as int),
            buf@.len() == data@.len(),
            buf@.len() == old(buf)@.len(),
            forall|acc: T, a: T, b: T| call_requires(*step, (acc, a, b)),
            forall|i: int|
                0 <= i < buf@.len() && !(half <= i < half + k) ==> #[trigger] buf@[i] == old(
                    buf,
                )@[i],
            forall|i: int|
                half <= i < half + k ==> window_value(
                    *step,
                    zero,
                    data@,
                    coeffs@,
                    i - half,
                    #[trigger] buf@[i],
                ),
        decreases body - k,
    {
        let window: &[T] = vstd::slice::slice_subrange(data, k, k + width);
        let mut sum: T = zero;
        dot_prod_update(&mut sum, window, coeffs, zero, step);
        buf[k + half] = sum;
        k = k + 1;
    }
    Ok(())
}

/// What becomes of the entries at either end of the output, where no whole
/// window fits.
#[derive(Clone, Copy, Debug, PartialEq, Eq, Structural)]
pub enum EdgePolicy {
    /// They stay as the caller set them.
    Keep,
    /// They are set to the value that a sum starts from.
    ZeroFill,
    /// They take the input sample at the same position.
    PassThrough,
}

/// What `policy` puts at position `i` of the fringe.
pub open spec fn edge_value<T>(policy: EdgePolicy, zero: T, data: Seq<T>, before: Seq<T>, i: int) -> T {
    match policy {
        EdgePolicy::Keep => before[i],
        EdgePolicy::ZeroFill => zero,
        EdgePolicy::PassThrough => data[i],
    }
}

/// `after` is `before` with `policy` applied to the `half` entries at either
/// end, and the interior kept.
pub open spec fn edged<T>(
    policy: EdgePolicy,
    zero: T,
    data: Seq<T>,
    half: int,
    before: Seq<T>,
    after: Seq<T>,
) -> bool {
    &&& after.len() == before.len()
    &&& forall|i: int|
        0 <= i < before.len() ==> #[trigger] after[i] == if half <= i < half + body_size(
            data.len() as int,
            half,
        ) {
            before[i]
        } else {
            edge_value(policy, zero, data, before, i)
        }
}

/// Applies `policy` to the first and last `half` entries of `buf`, which the
/// convolution leaves alone.
pub fn apply_edges<T: Copy>(
    buf: &mut [T],
    data: &[T],
    half: usize,
    policy: EdgePolicy,
    zero: T,
) -> (res: Result<(), FilterError>)
    ensures
        if old(buf)@.len() != data@.len() {
            res == Err::<(), FilterError>(FilterError::LengthMismatch) && final(buf)@ == old(buf)@
        } else {
            res is Ok && edged(policy, zero, data@, half as int, old(buf)@, final(buf)@)
        },
{
    if buf.len() != data.len() {
        return Err(FilterError::LengthMismatch);
    }
    let len: usize = data.len();
    let body: usize = body_len(len, half);
    let mut i: usize = 0;
    while i < len
        invariant
            i <= len,
            len == data@.len(),
            buf@.len() == len,
            old(buf)@.len() == len,
            body == body_size(len as int, half as int),
            forall|k: int|
                0 <= k < i ==> #[trigger] buf@[k] == if half <= k < half + body {
                    old(buf)@[k]
                } else {
                    edge_value(policy, zero, data@, old(buf)@, k)
                },
            forall|k: int| i <= k < len ==> #[trigger] buf@[k] == old(buf)@[k],
        decreases len - i,
    {
        let interior: bool = half <= i && i - half < body;
        if !interior {
            match policy {
                EdgePolicy::Keep => {},
                EdgePolicy::ZeroFill => {
                    buf[i] = zero;
                },
                EdgePolicy::PassThrough => {
                    buf[i] = data[i];
                },
            }
        }
        i = i + 1;
    }
    Ok(())
}

/// Fills `out` in parallel through rayon's `par_iter_mut`, `zip`,
/// `par_windows` and `for_each`. Believed of them: the `k`-th entry of `out`
/// is paired with the `k`-th window of `data`, every pair is handed once to
/// the closure, which stores that window's weighted sum, and the call
/// returns when all pairs are done.
#[verifier::external_body]
fn par_fill_windows<T: Copy + Send + Sync, F: Fn(T, T, T) -> T + Sync>(
    out: &mut [T],
    data: &[T],
    coeffs: &[T],
    zero: T,
    step: &F,
)
    requires
        coeffs@.len() >= 1,
        data@.len() == old(out)@.len() + coeffs@.len() - 1,
        forall|acc: T, a: T, b: T| call_requires(*step, (acc, a, b)),
    ensures
        final(out)@.len() == old(out)@.len(),
        forall|k: int|
            0 <= k < old(out)@.len() ==> window_value(
                *step,
                zero,
                data@,
                coeffs@,
                k,
                #[trigger] final(out)@[k],
            ),
{
    out.par_iter_mut().zip(data.par_windows(coeffs.len())).for_each(
        |(slot, window)| dot_prod_update(slot, window, coeffs, zero, step),
    );
}

/// Does what `convolve` does, with the interior positions shared out among
/// the threads of rayon's pool. Each position is summed in the same order as
/// in `convolve`.
pub fn par_convolve<T: Copy + Send + Sync, F: Fn(T, T, T) -> T + Sync>(
    buf: &mut [T],
    data: &[T],
    coeffs: &[T],
    half: usize,
    zero: T,
    step: &F,
) -> (res: Result<(), FilterError>)
    requires
        coeffs@.len() == window_size(half as int),
        forall|acc: T, a: T, b: T| call_requires(*step, (acc, a, b)),
    ensures
        if old(buf)@.len() != data@.len() {
            res == Err::<(), FilterError>(FilterError::LengthMismatch) && final(buf)@ == old(buf)@
        } else {
            res is Ok && convolved(
                *step,
                zero,
                data@,
                coeffs@,
                half as int,
                old(buf)@,
                final(buf)@,
            )
        },
{
    if buf.len() != data.len() {
        return Err(FilterError::LengthMismatch);
    }
    let len: usize = data.len();
    let body: usize = body_len(len, half);
    if body > 0 {
        let (_head, rest) = buf.split_at_mut(half);
        let (middle, _tail) = rest.split_at_mut(body);
        par_fill_windows(middle, data, coeffs, zero, step);
    }
    Ok(())
}

} // verus!
