//! Pure smoothing, of moment order zero, is the moving average: the solve
//! goes through for every window that fits and weighs all samples alike.

use crate::arith::{exact_quotient, gcd, narrow, LIMIT};
use crate::coeffs::{
    content, lowest_terms, moment_target, moments_match, reduced, reduced_acc,
    solved, window_fits,
};
use crate::moments::{
    checked_power, checked_value, horner_acc, moment_acc, power_sum, power_sum_acc,
    power_sums, power_sums_acc, sampled, sampled_acc,
};
use crate::solver::{
    clear_column, clear_entry, common_denominator, common_denominator_acc, eliminated, gram_row,
    gram_rows, joined, numerators, numerators_acc, scaled_numerator, unknown,
};
use vstd::prelude::*;

verus! {

/// `n` weights of one each.
pub open spec fn ones(n: nat) -> Seq<i64> {
    Seq::new(n, |i: int| 1i64)
}

/// One has no divisor in common with anything.
proof fn lemma_gcd_with_one(x: nat)
    requires
        x >= 1,
    ensures
        gcd(x, 1) == 1,
        gcd(1, x) == 1,
{
    assert(x % 1 == 0);
    assert(gcd(1, 0) == 1);
    assert(gcd(x, 1) == gcd(1, x % 1));
    if x == 1 {
    } else {
        assert(1nat % x == 1) by (nonlinear_arith)
            requires
                x > 1,
        ;
        assert(gcd(1, x) == gcd(x, 1nat % x));
    }
}

/// The power sum of order zero counts the offsets.
proof fn lemma_count_offsets(half: i64, from: int, acc: i64)
    requires
        0 <= half,
        2 * half + 1 <= LIMIT,
        0 <= from <= 2 * half + 1,
        acc == from,
    ensures
        power_sum_acc(half, 0, from, acc) == Some((2 * half + 1) as i64),
    decreases 2 * half + 1 - from,
{
    if from <= 2 * half {
        assert(checked_power((from - half) as i64, 0) == Some(1i64));
        lemma_count_offsets(half, from + 1, (acc + 1) as i64);
    }
}

/// The constant polynomial one takes the value one at every offset.
proof fn lemma_sample_constant(half: i64, sofar: Seq<i64>)
    requires
        0 <= half,
        2 * half + 1 <= LIMIT,
        sofar.len() <= 2 * half + 1,
        sofar == ones(sofar.len()),
    ensures
        sampled_acc(seq![1i64], half, sofar) == Some(ones((2 * half + 1) as nat)),
    decreases 2 * half + 1 - sofar.len(),
{
    if sofar.len() <= 2 * half {
        let x = (sofar.len() - half) as i64;
        let poly = seq![1i64];
        assert(poly.len() == 1);
        assert(narrow(0 * x + poly[0]) == Some(1i64));
        assert(horner_acc(poly, x, 0, 1) == Some(1i64));
        assert(horner_acc(poly, x, 1, 0) == Some(1i64));
        assert(checked_value(poly, x) == Some(1i64));
        assert(sofar.push(1i64) =~= ones(sofar.len() + 1));
        lemma_sample_constant(half, sofar.push(1i64));
    } else {
        assert(sofar.len() == 2 * half + 1);
    }
}

/// Ones have no common divisor beyond one.
proof fn lemma_content_of_ones(n: nat, from: int)
    requires
        0 <= from,
    ensures
        content(ones(n), from, 1) == 1,
    decreases n - from,
{
    if from < n {
        assert(gcd(1, 1) == gcd(1, 0));
        assert(gcd(1, 0) == 1);
        lemma_content_of_ones(n, from + 1);
    }
}

/// Dividing ones by one leaves them as they are.
proof fn lemma_reduce_ones(n: nat, sofar: Seq<i64>)
    requires
        sofar.len() <= n,
        sofar == ones(sofar.len()),
    ensures
        reduced_acc(ones(n), 1, false, sofar) == Some(ones(n)),
    decreases n - sofar.len(),
{
    if sofar.len() < n {
        assert(exact_quotient(1i64, 1, false) == Some(1i64));
        assert(sofar.push(1i64) =~= ones(sofar.len() + 1));
        lemma_reduce_ones(n, sofar.push(1i64));
    } else {
        assert(sofar.len() == n);
    }
}

/// The moment of order zero of ones counts them.
proof fn lemma_count_ones(half: i64, from: int, acc: i64)
    requires
        0 <= half,
        2 * half + 1 <= LIMIT,
        0 <= from <= 2 * half + 1,
        acc == from,
    ensures
        moment_acc(ones((2 * half + 1) as nat), half, 0, from, acc) == Some(
            (2 * half + 1) as i64,
        ),
    decreases 2 * half + 1 - from,
{
    let w = ones((2 * half + 1) as nat);
    if from < w.len() {
        assert(checked_power((from - half) as i64, 0) == Some(1i64));
        assert(w[from] * 1 == 1);
        lemma_count_ones(half, from + 1, (acc + 1) as i64);
    }
}

/// For every window that fits, the solve for moment order zero goes
/// through, and its weights are one over the window size each.
pub proof fn lemma_pure_smoothing_is_the_mean(half: int)
    requires
        0 <= half,
        window_fits(half),
    ensures
        solved(half, 0) == Some((ones((2 * half + 1) as nat), (2 * half + 1) as i64)),
{
    let h = half as i64;
    let size = (2 * half + 1) as i64;
    lemma_count_offsets(h, 0, 0);
    assert(power_sum(h, 0) == Some(size));
    let sums = seq![size];
    assert(Seq::<i64>::empty().push(size) =~= sums);
    assert(power_sums_acc(h, 1, sums) == Some(sums));
    assert(power_sums(h, 1) == Some(sums));
    let rows = gram_rows(sums, 1);
    assert(rows.len() == 1);
    assert(rows[0] == gram_row(sums, 1, 0));
    assert(rows[0].len() == 2);
    assert(rows[0][0] == size);
    assert(rows[0][1] == 1);
    assert(clear_entry(rows, 0, 0) == Some(rows));
    assert(clear_column(rows, 0, 1) == Some(rows));
    assert(clear_column(rows, 0, 0) == Some(rows));
    assert(eliminated(rows, 1) == Some(rows));
    assert(eliminated(rows, 0) == Some(rows));
    lemma_gcd_with_one(size as nat);
    assert(exact_quotient(1i64, 1, false) == Some(1i64));
    assert(exact_quotient(size, 1, false) == Some(size));
    assert(unknown(rows, 0) == Some((1i64, size)));
    assert(size as nat / 1 == size as nat);
    assert(1nat / 1 == 1nat);
    assert(narrow(1 * size) == Some(size));
    assert(joined(1, size) == Some(size));
    assert(common_denominator_acc(rows, 1, size) == Some(size));
    assert(common_denominator_acc(rows, 0, 1) == Some(size));
    assert(common_denominator(rows) == Some(size));
    assert((size as nat) % (size as nat) == 0) by (nonlinear_arith)
        requires
            size >= 1,
    ;
    assert(size as int / size as int == 1) by (nonlinear_arith)
        requires
            size >= 1,
    ;
    assert(exact_quotient(size, size as nat, false) == Some(1i64));
    assert(narrow(1int * 1int) == Some(1i64));
    assert(scaled_numerator(rows, 0, size) == Some(1i64));
    let poly = seq![1i64];
    assert(Seq::<i64>::empty().push(1i64) =~= poly);
    assert(numerators_acc(rows, size, poly) == Some(poly));
    assert(numerators_acc(rows, size, Seq::empty()) == Some(poly));
    assert(numerators(rows, size) == Some(poly));
    assert(Seq::<i64>::empty() =~= ones(0));
    lemma_sample_constant(h, Seq::empty());
    let raw = ones((2 * half + 1) as nat);
    assert(sampled(poly, h) == Some(raw));
    lemma_content_of_ones((2 * half + 1) as nat, 1);
    assert(content(raw, 0, size as nat) == content(raw, 1, 1));
    lemma_reduce_ones((2 * half + 1) as nat, Seq::empty());
    assert(reduced(raw, 1, false) == Some(raw));
    assert(exact_quotient(size, 1, false) == Some(size));
    lemma_count_ones(h, 0, 0);
    assert(moment_acc(raw, h, 0, 0, 0) == Some(moment_target(0, size)));
    assert(moments_match(raw, size, h, 0, 1));
    assert(moments_match(raw, size, h, 0, 0));
    assert(lowest_terms(raw, size, h, 0) == Some((raw, size)));
}

} // verus!
