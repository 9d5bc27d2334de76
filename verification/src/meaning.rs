//! What the integer solve yields, where it yields anything, is the smoothing
//! kernel: the description of the computation and the description of the
//! result agree.

use crate::arith::{exact_quotient, lemma_exact_quotient, magnitude, signed, LIMIT};
use crate::coeffs::{
    content, is_smoothing_kernel, lies_on, lowest_terms, moment_target, moments_match, reduced,
    reduced_acc, solved, window_fits,
};
use crate::moments::{
    as_ints, checked_value, lemma_horner_acc, lemma_moment_acc, lemma_power_sums_len, moment,
    poly_value, power_sums, sampled, sampled_acc,
};
use crate::solver::{
    clear_column, clear_entry, common_denominator, eliminated, gram_rows, numerators,
    numerators_acc, scaled_numerator,
};
use vstd::prelude::*;

verus! {

/// Sampling a polynomial yields its value at every offset of the window.
pub proof fn lemma_sampled(poly: Seq<i64>, half: i64, sofar: Seq<i64>)
    requires
        0 <= half,
        2 * half + 1 <= LIMIT,
        sofar.len() <= 2 * half + 1,
        forall|i: int|
            0 <= i < sofar.len() ==> #[trigger] sofar[i] == poly_value(as_ints(poly), i - half, 0),
    ensures
        sampled_acc(poly, half, sofar) matches Some(raw) ==> {
            &&& raw.len() == 2 * half + 1
            &&& forall|i: int|
                0 <= i < raw.len() ==> #[trigger] raw[i] == poly_value(as_ints(poly), i - half, 0)
        },
    decreases 2 * half + 1 - sofar.len(),
{
    if sofar.len() <= 2 * half {
        let x = (sofar.len() - half) as i64;
        if let Some(v) = checked_value(poly, x) {
            lemma_horner_acc(poly, x, poly.len(), 0);
            lemma_sampled(poly, half, sofar.push(v));
        }
    }
}

/// Reducing divides every value exactly.
pub proof fn lemma_reduced(values: Seq<i64>, g: nat, flip: bool, sofar: Seq<i64>)
    requires
        sofar.len() <= values.len(),
        forall|i: int|
            0 <= i < sofar.len() ==> (#[trigger] sofar[i]) * g == signed(values[i] as int, flip),
    ensures
        reduced_acc(values, g, flip, sofar) matches Some(out) ==> {
            &&& out.len() == values.len()
            &&& forall|i: int|
                0 <= i < out.len() ==> (#[trigger] out[i]) * g == signed(values[i] as int, flip)
        },
    decreases values.len() - sofar.len(),
{
    if sofar.len() < values.len() {
        let v = values[sofar.len() as int];
        if let Some(q) = exact_quotient(v, g, flip) {
            lemma_exact_quotient(v, g, flip);
            lemma_reduced(values, g, flip, sofar.push(q));
        }
    }
}

/// Moments that match as computed are the moments asked for.
pub proof fn lemma_moments_match(
    weights: Seq<i64>,
    den: i64,
    half: i64,
    order: nat,
    p: nat,
    q: nat,
)
    requires
        0 <= half,
        2 * half + 1 <= LIMIT,
        weights.len() <= 2 * half + 1,
        p <= q <= order,
        moments_match(weights, den, half, order, p),
    ensures
        moment(as_ints(weights), half as int, q, 0) == moment_target(q, den),
    decreases q - p,
{
    if p == q {
        lemma_moment_acc(weights, half, q, 0, 0);
    } else {
        lemma_moments_match(weights, den, half, order, p + 1, q);
    }
}

/// Clearing a column keeps the number of rows.
proof fn lemma_clear_column_len(rows: Seq<Seq<i64>>, c: int, r: int)
    ensures
        clear_column(rows, c, r) matches Some(out) ==> out.len() == rows.len(),
    decreases rows.len() - r,
{
    if 0 <= r < rows.len() {
        if let Some(next) = clear_entry(rows, c, r) {
            if next.len() == rows.len() {
                lemma_clear_column_len(next, c, r + 1);
            }
        }
    }
}

/// Elimination keeps the number of rows.
proof fn lemma_eliminated_len(rows: Seq<Seq<i64>>, c: int)
    ensures
        eliminated(rows, c) matches Some(out) ==> out.len() == rows.len(),
    decreases rows.len() - c,
{
    if 0 <= c < rows.len() && rows[c][c] != 0 {
        if let Some(next) = clear_column(rows, c, 0) {
            if next.len() == rows.len() {
                lemma_eliminated_len(next, c + 1);
            }
        }
    }
}

/// There is one numerator for each row.
proof fn lemma_numerators_len(rows: Seq<Seq<i64>>, d: i64, sofar: Seq<i64>)
    requires
        sofar.len() <= rows.len(),
    ensures
        numerators_acc(rows, d, sofar) matches Some(out) ==> out.len() == rows.len(),
    decreases rows.len() - sofar.len(),
{
    if sofar.len() < rows.len() {
        if let Some(v) = scaled_numerator(rows, sofar.len() as int, d) {
            lemma_numerators_len(rows, d, sofar.push(v));
        }
    }
}

/// Values of a polynomial, brought to lowest terms with moments that match,
/// are a smoothing kernel.
pub proof fn lemma_lowest_terms_is_kernel(
    raw: Seq<i64>,
    d: i64,
    half: i64,
    order: nat,
    poly: Seq<i64>,
)
    requires
        0 <= half,
        2 * half + 1 <= LIMIT,
        raw.len() == 2 * half + 1,
        poly.len() == order + 1,
        forall|i: int|
            0 <= i < raw.len() ==> #[trigger] raw[i] == poly_value(as_ints(poly), i - half, 0),
    ensures
        lowest_terms(raw, d, half, order) matches Some((nums, den)) ==> is_smoothing_kernel(
            half as int,
            order as int,
            nums,
            den,
        ),
{
    if let Some((nums, den)) = lowest_terms(raw, d, half, order) {
        let g = content(raw, 0, magnitude(d as int));
        let flip = d < 0;
        lemma_reduced(raw, g, flip, Seq::empty());
        assert(reduced(raw, g, flip) == Some(nums));
        assert(exact_quotient(d, g, flip) is Some);
        assert(g != 0);
        let scale: int = signed(g as int, flip);
        assert forall|i: int| 0 <= i < nums.len() implies scale * (#[trigger] nums[i])
            == poly_value(as_ints(poly), i - half, 0) by {
            let q = nums[i];
            let v = raw[i];
            assert(q * g == signed(v as int, flip));
            assert(scale * q == v) by (nonlinear_arith)
                requires
                    q * g == signed(v as int, flip),
                    scale == signed(g as int, flip),
            ;
        }
        assert(lies_on(nums, half as int, order as int, as_ints(poly), scale));
        assert forall|p: nat| p <= order implies #[trigger] moment(
            as_ints(nums),
            half as int,
            p,
            0,
        ) == moment_target(p, den) by {
            lemma_moments_match(nums, den, half, order, 0, p);
        }
    }
}

/// Whatever the integer solve yields is the smoothing kernel for the
/// half-width and the order: it has the moments of a unit impulse and lies
/// on a polynomial of that order.
pub proof fn lemma_solved_is_kernel(half: int, order: int)
    ensures
        solved(half, order) matches Some((nums, den)) ==> is_smoothing_kernel(
            half,
            order,
            nums,
            den,
        ),
{
    if let Some((nums, den)) = solved(half, order) {
        let h = half as i64;
        let count = (2 * order + 1) as nat;
        assert(window_fits(half));
        let sums = power_sums(h, count)->Some_0;
        lemma_power_sums_len(h, count, Seq::empty());
        let rows = gram_rows(sums, order + 1);
        let diagonal = eliminated(rows, 0)->Some_0;
        lemma_eliminated_len(rows, 0);
        let d = common_denominator(diagonal)->Some_0;
        let poly = numerators(diagonal, d)->Some_0;
        lemma_numerators_len(diagonal, d, Seq::empty());
        let raw = sampled(poly, h)->Some_0;
        lemma_sampled(poly, h, Seq::empty());
        lemma_lowest_terms_is_kernel(raw, d, h, order as nat, poly);
    }
}

} // verus!
