//! What keeping the moments means for the samples: a window that lies on a
//! polynomial of the kernel's order is smoothed to its own centre.

use crate::coeffs::{is_smoothing_kernel, moment_target};
use crate::moments::{as_ints, moment, poly_value, power};
use vstd::prelude::*;

verus! {

/// The weighted sum, over the positions from `from` on, of the values that
/// the polynomial `poly` takes at the offsets `i - half`.
pub open spec fn weighted_values(weights: Seq<int>, half: int, poly: Seq<int>, from: int) -> int
    decreases weights.len() - from,
{
    if from >= weights.len() || from < 0 {
        0
    } else {
        weights[from] * poly_value(poly, from - half, 0) + weighted_values(
            weights,
            half,
            poly,
            from + 1,
        )
    }
}

/// As `weighted_values`, for the polynomial with the weights of `poly` from
/// `k` on, times the `e`-th power of the offset.
pub open spec fn shifted_values(
    weights: Seq<int>,
    half: int,
    poly: Seq<int>,
    e: nat,
    k: int,
    from: int,
) -> int
    decreases weights.len() - from,
{
    if from >= weights.len() || from < 0 {
        0
    } else {
        weights[from] * (power(from - half, e) * poly_value(poly, from - half, k))
            + shifted_values(weights, half, poly, e, k, from + 1)
    }
}

/// Without a power and from the lowest weight on, the shifted sum is the
/// plain one.
proof fn lemma_unshifted(weights: Seq<int>, half: int, poly: Seq<int>, from: int)
    requires
        0 <= from,
    ensures
        shifted_values(weights, half, poly, 0, 0, from) == weighted_values(
            weights,
            half,
            poly,
            from,
        ),
    decreases weights.len() - from,
{
    if from < weights.len() {
        lemma_unshifted(weights, half, poly, from + 1);
        let v = poly_value(poly, from - half, 0);
        assert(power(from - half, 0) == 1);
        assert(1 * v == v);
    }
}

/// A polynomial has no terms beyond its last weight.
proof fn lemma_past_the_end(
    weights: Seq<int>,
    half: int,
    poly: Seq<int>,
    e: nat,
    k: int,
    from: int,
)
    requires
        0 <= from,
        k >= poly.len(),
    ensures
        shifted_values(weights, half, poly, e, k, from) == 0,
    decreases weights.len() - from,
{
    if from < weights.len() {
        lemma_past_the_end(weights, half, poly, e, k, from + 1);
        let pw = power(from - half, e);
        assert(poly_value(poly, from - half, k) == 0);
        assert(weights[from] * (pw * 0) == 0) by (nonlinear_arith);
    }
}

/// Taking the lowest term of the polynomial out of the sum leaves that
/// term's weight times a moment, and a sum one power and one term further
/// on.
proof fn lemma_peel(weights: Seq<int>, half: int, poly: Seq<int>, e: nat, k: int, from: int)
    requires
        0 <= from,
        0 <= k < poly.len(),
    ensures
        shifted_values(weights, half, poly, e, k, from) == poly[k] * moment(weights, half, e, from)
            + shifted_values(weights, half, poly, e + 1, k + 1, from),
    decreases weights.len() - from,
{
    if from < weights.len() {
        lemma_peel(weights, half, poly, e, k, from + 1);
        let n = weights[from];
        let x = from - half;
        let pw = power(x, e);
        let rest = poly_value(poly, x, k + 1);
        let c = poly[k];
        assert(poly_value(poly, x, k) == c + x * rest);
        assert(power(x, e + 1) == x * pw);
        assert(n * (pw * (c + x * rest)) == c * (n * pw) + n * ((x * pw) * rest))
            by (nonlinear_arith);
        let tail_moment = moment(weights, half, e, from + 1);
        assert(c * (n * pw + tail_moment) == c * (n * pw) + c * tail_moment) by (nonlinear_arith);
    }
}

/// Weights whose moments of the orders `k` to `order` vanish give no weight
/// to the terms of a polynomial from the `k`-th on.
pub proof fn lemma_higher_terms_vanish(
    weights: Seq<int>,
    half: int,
    order: int,
    poly: Seq<int>,
    k: int,
)
    requires
        0 <= k,
        poly.len() <= order + 1,
        forall|p: nat| k <= p <= order ==> #[trigger] moment(weights, half, p, 0) == 0,
    ensures
        shifted_values(weights, half, poly, k as nat, k, 0) == 0,
    decreases poly.len() - k,
{
    if k < poly.len() {
        lemma_peel(weights, half, poly, k as nat, k, 0);
        lemma_higher_terms_vanish(weights, half, order, poly, k + 1);
        assert(moment(weights, half, k as nat, 0) == 0);
        assert(poly[k] * 0 == 0);
    } else {
        lemma_past_the_end(weights, half, poly, k as nat, k, 0);
    }
}

/// Weights whose moments up to `order` all vanish give no weight to any
/// polynomial of that degree.
pub proof fn lemma_blind_to_polynomials(weights: Seq<int>, half: int, order: int, poly: Seq<int>)
    requires
        poly.len() <= order + 1,
        forall|p: nat| p <= order ==> #[trigger] moment(weights, half, p, 0) == 0,
    ensures
        weighted_values(weights, half, poly, 0) == 0,
{
    lemma_unshifted(weights, half, poly, 0);
    lemma_higher_terms_vanish(weights, half, order, poly, 0);
}

/// A smoothing kernel of moment order `order` lets polynomials up to that
/// degree through: where the samples under the window are the values of
/// such a polynomial at the offsets, their weighted sum is the denominator
/// times the polynomial's value at the centre.
pub proof fn lemma_polynomials_pass_through(
    half: int,
    order: int,
    nums: Seq<i64>,
    den: i64,
    poly: Seq<int>,
)
    requires
        0 <= order,
        is_smoothing_kernel(half, order, nums, den),
        poly.len() <= order + 1,
    ensures
        weighted_values(as_ints(nums), half, poly, 0) == den * poly_value(poly, 0, 0),
{
    let weights = as_ints(nums);
    lemma_unshifted(weights, half, poly, 0);
    if poly.len() == 0 {
        lemma_past_the_end(weights, half, poly, 0, 0, 0);
        assert(den * 0 == 0);
    } else {
        lemma_peel(weights, half, poly, 0, 0, 0);
        assert forall|p: nat| 1 <= p <= order implies #[trigger] moment(weights, half, p, 0)
            == 0 by {
            assert(moment(weights, half, p, 0) == moment_target(p, den));
        }
        lemma_higher_terms_vanish(weights, half, order, poly, 1);
        assert(moment(weights, half, 0nat, 0) == moment_target(0nat, den));
        let rest = poly_value(poly, 0, 1);
        assert(poly_value(poly, 0, 0) == poly[0] + 0 * rest);
        assert(0 * rest == 0);
        assert(poly[0] * den == den * poly[0]) by (nonlinear_arith);
    }
}

} // verus!
