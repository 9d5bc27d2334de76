//! The smoothing filter: weights computed, rendered in the sample type, and
//! applied across a buffer.

use crate::coeffs::{compute_coefficients, solved, Coefficients};
use crate::engine::{convolve, convolved, lemma_convolved_unique, par_convolve};
use crate::error::FilterError;
use crate::kernel::single_valued;
use vstd::prelude::*;

verus! {

/// `weights` holds, for each numerator in turn, a value that `ratio` can
/// yield for it over `den`.
pub open spec fn rendered<T, R: Fn(i64, i64) -> T>(
    ratio: R,
    nums: Seq<i64>,
    den: i64,
    weights: Seq<T>,
) -> bool {
    &&& weights.len() == nums.len()
    &&& forall|j: int|
        0 <= j < nums.len() ==> call_ensures(ratio, (nums[j], den), #[trigger] weights[j])
}

/// Turns exact weights into the sample type, one call of `ratio` for each.
pub fn render<T, R: Fn(i64, i64) -> T>(weights: &Coefficients, ratio: &R) -> (out: Vec<T>)
    requires
        forall|n: i64, d: i64| call_requires(*ratio, (n, d)),
    ensures
        rendered(*ratio, weights.numerators@, weights.denominator, out@),
{
    let mut out: Vec<T> = Vec::new();
    let mut j: usize = 0;
    while j < weights.numerators.len()
        invariant
            j <= weights.numerators@.len(),
            out@.len() == j,
            forall|n: i64, d: i64| call_requires(*ratio, (n, d)),
            forall|k: int|
                0 <= k < j ==> call_ensures(
                    *ratio,
                    (weights.numerators@[k], weights.denominator),
                    #[trigger] out@[k],
                ),
        decreases weights.numerators@.len() - j,
    {
        let w: T = ratio(weights.numerators[j], weights.denominator);
        out.push(w);
        j = j + 1;
    }
    out
}

/// Why a request to smooth is refused, if it is: unequal buffers first, then
/// an order too high for the window, then a solve that cannot be carried
/// through.
pub open spec fn refusal(out_len: int, in_len: int, half: int, order: int) -> Option<FilterError> {
    if out_len != in_len {
        Some(FilterError::LengthMismatch)
    } else if order > 2 * half {
        Some(FilterError::InvalidWindowParameters)
    } else if solved(half, order) is None {
        Some(FilterError::SingularSystem)
    } else {
        None
    }
}

/// `after` is `before` smoothed with the given weights and starting value,
/// which are renderings of the exact weights and of zero.
pub open spec fn smoothed_with<T, R: Fn(i64, i64) -> T, F: Fn(T, T, T) -> T>(
    ratio: R,
    step: F,
    half: int,
    order: int,
    data: Seq<T>,
    before: Seq<T>,
    after: Seq<T>,
    weights: Seq<T>,
    zero: T,
) -> bool {
    &&& solved(half, order) matches Some((nums, den)) && rendered(ratio, nums, den, weights)
    &&& call_ensures(ratio, (0i64, 1i64), zero)
    &&& convolved(step, zero, data, weights, half, before, after)
}

/// `after` is `before` with every interior entry replaced by the smoothed
/// value of `data` there, and the `half` entries at either end kept.
pub open spec fn smoothed<T, R: Fn(i64, i64) -> T, F: Fn(T, T, T) -> T>(
    ratio: R,
    step: F,
    half: int,
    order: int,
    data: Seq<T>,
    before: Seq<T>,
    after: Seq<T>,
) -> bool {
    exists|weights: Seq<T>, zero: T| #[trigger]
        smoothed_with(ratio, step, half, order, data, before, after, weights, zero)
}

/// What a request to smooth `data` into a buffer that held `before` comes
/// to: either the refusal that is due, with the buffer as it was, or success
/// with the buffer smoothed.
pub open spec fn filter_outcome<T, R: Fn(i64, i64) -> T, F: Fn(T, T, T) -> T>(
    ratio: R,
    step: F,
    half: int,
    order: int,
    data: Seq<T>,
    before: Seq<T>,
    res: Result<(), FilterError>,
    after: Seq<T>,
) -> bool {
    match refusal(before.len() as int, data.len() as int, half, order) {
        Some(e) => res == Err::<(), FilterError>(e) && after == before,
        None => res is Ok && smoothed(ratio, step, half, order, data, before, after),
    }
}

/// `ratio` yields one value only for each fraction.
pub open spec fn single_valued_ratio<T, R: Fn(i64, i64) -> T>(ratio: R) -> bool {
    forall|n: i64, d: i64, r1: T, r2: T|
        #[trigger] call_ensures(ratio, (n, d), r1) && #[trigger] call_ensures(ratio, (n, d), r2)
            ==> r1 == r2
}

/// Unequal buffers are refused as such, whatever the window and the order.
pub proof fn lemma_unequal_lengths_refused<T, R: Fn(i64, i64) -> T, F: Fn(T, T, T) -> T>(
    ratio: R,
    step: F,
    half: int,
    order: int,
    data: Seq<T>,
    before: Seq<T>,
    res: Result<(), FilterError>,
    after: Seq<T>,
)
    requires
        filter_outcome(ratio, step, half, order, data, before, res, after),
        before.len() != data.len(),
    ensures
        res == Err::<(), FilterError>(FilterError::LengthMismatch),
        after == before,
{
}

/// The filter run in turn and the filter shared out among threads come to
/// the same: with a rendering and a step that yield one value only, any two
/// outcomes of one request are the same result and the same samples.
pub proof fn lemma_outcome_unique<T, R: Fn(i64, i64) -> T, F: Fn(T, T, T) -> T>(
    ratio: R,
    step: F,
    half: int,
    order: int,
    data: Seq<T>,
    before: Seq<T>,
    res_one: Result<(), FilterError>,
    one: Seq<T>,
    res_other: Result<(), FilterError>,
    other: Seq<T>,
)
    requires
        single_valued_ratio(ratio),
        single_valued(step),
        filter_outcome(ratio, step, half, order, data, before, res_one, one),
        filter_outcome(ratio, step, half, order, data, before, res_other, other),
    ensures
        res_one == res_other,
        one == other,
{
    if refusal(before.len() as int, data.len() as int, half, order) is None {
        let (w1, z1) = choose|weights: Seq<T>, zero: T| #[trigger]
            smoothed_with(ratio, step, half, order, data, before, one, weights, zero);
        let (w2, z2) = choose|weights: Seq<T>, zero: T| #[trigger]
            smoothed_with(ratio, step, half, order, data, before, other, weights, zero);
        assert(z1 == z2);
        assert(w1 =~= w2);
        lemma_convolved_unique(step, z1, data, w1, half, before, one, other);
        assert(res_one->Ok_0 == res_other->Ok_0);
    }
}

/// The weights for half-width `half` and moment order `order` and the
/// starting value of a sum, both in the sample type.
pub(crate) fn prepare<T, R: Fn(i64, i64) -> T>(half: usize, order: usize, ratio: &R) -> (res: Result<
    (Vec<T>, T),
    FilterError,
>)
    requires
        forall|n: i64, d: i64| call_requires(*ratio, (n, d)),
    ensures
        match res {
            Ok((weights, zero)) => {
                &&& order <= 2 * half
                &&& solved(half as int, order as int) matches Some((nums, den)) && rendered(
                    *ratio,
                    nums,
                    den,
                    weights@,
                )
                &&& weights@.len() == 2 * half + 1
                &&& call_ensures(*ratio, (0i64, 1i64), zero)
            },
            Err(e) => refusal(0, 0, half as int, order as int) == Some(e),
        },
{
    let exact: Coefficients = match compute_coefficients(half, order) {
        Ok(c) => c,
        Err(e) => {
            return Err(e);
        },
    };
    let weights: Vec<T> = render(&exact, ratio);
    let zero: T = ratio(0, 1);
    Ok((weights, zero))
}

/// Savitzky-Golay smoothing filter.
///
/// A `WINDOW` of `1` takes in three samples: one on either side and the one
/// in the middle. With `M` of `3`, moments up to the third are kept.
///
/// The samples are of any type `T`: `ratio(n, d)` renders the exact weight
/// `n / d` in it, and `step(acc, a, b)` adds the product of a sample `a` and
/// a weight `b` to the running sum `acc`, which starts from `ratio(0, 1)`.
///
/// The first and last `WINDOW` entries of `buf` are not written. On an
/// error nothing is.
pub fn sav_gol<const WINDOW: usize, const M: usize, T: Copy, R: Fn(i64, i64) -> T, F: Fn(
    T,
    T,
    T,
) -> T>(buf: &mut [T], data: &[T], ratio: &R, step: &F) -> (res: Result<(), FilterError>)
    requires
        forall|n: i64, d: i64| call_requires(*ratio, (n, d)),
        forall|acc: T, a: T, b: T| call_requires(*step, (acc, a, b)),
    ensures
        filter_outcome(
            *ratio,
            *step,
            WINDOW as int,
            M as int,
            data@,
            old(buf)@,
            res,
            final(buf)@,
        ),
{
    if buf.len() != data.len() {
        return Err(FilterError::LengthMismatch);
    }
    let (weights, zero) = match prepare(WINDOW, M, ratio) {
        Ok(pair) => pair,
        Err(e) => {
            return Err(e);
        },
    };
    let done = convolve(buf, data, weights.as_slice(), WINDOW, zero, step);
    proof {
        assert(smoothed_with(
            *ratio,
            *step,
            WINDOW as int,
            M as int,
            data@,
            old(buf)@,
            buf@,
            weights@,
            zero,
        ));
    }
    done
}

/// The smoothing filter of `sav_gol`, with the interior positions shared out
/// among the threads of rayon's pool. Each position is summed in the same
/// order as in `sav_gol`.
pub fn par_sav_gol<
    const WINDOW: usize,
    const M: usize,
    T: Copy + Send + Sync,
    R: Fn(i64, i64) -> T,
    F: Fn(T, T, T) -> T + Sync,
>(buf: &mut [T], data: &[T], ratio: &R, step: &F) -> (res: Result<(), FilterError>)
    requires
        forall|n: i64, d: i64| call_requires(*ratio, (n, d)),
        forall|acc: T, a: T, b: T| call_requires(*step, (acc, a, b)),
    ensures
        filter_outcome(
            *ratio,
            *step,
            WINDOW as int,
            M as int,
            data@,
            old(buf)@,
            res,
            final(buf)@,
        ),
{
    if buf.len() != data.len() {
        return Err(FilterError::LengthMismatch);
    }
    let (weights, zero) = match prepare(WINDOW, M, ratio) {
        Ok(pair) => pair,
        Err(e) => {
            return Err(e);
        },
    };
    let done = par_convolve(buf, data, weights.as_slice(), WINDOW, zero, step);
    proof {
        assert(smoothed_with(
            *ratio,
            *step,
            WINDOW as int,
            M as int,
            data@,
            old(buf)@,
            buf@,
            weights@,
            zero,
        ));
    }
    done
}

} // verus!
