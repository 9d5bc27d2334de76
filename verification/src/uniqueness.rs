//! The two facts that describe a smoothing kernel leave room for one kernel
//! only: any two sets of weights that meet them are the same fractions.

use crate::coeffs::{is_smoothing_kernel, lies_on, moment_target};
use crate::fidelity::{lemma_blind_to_polynomials, weighted_values};
use crate::moments::{as_ints, moment, poly_value, power};
use vstd::prelude::*;

verus! {

/// Entry by entry, `a` times `u` less `b` times `v`.
pub open spec fn blend(a: int, u: Seq<int>, b: int, v: Seq<int>) -> Seq<int> {
    Seq::new(u.len(), |i: int| a * u[i] - b * v[i])
}

/// The sum of the squares of the entries from `from` on.
pub open spec fn squares(w: Seq<int>, from: int) -> int
    decreases w.len() - from,
{
    if from >= w.len() || from < 0 {
        0
    } else {
        w[from] * w[from] + squares(w, from + 1)
    }
}

/// The moments of a blend are the blend of the moments.
proof fn lemma_moment_of_blend(
    a: int,
    u: Seq<int>,
    b: int,
    v: Seq<int>,
    half: int,
    p: nat,
    from: int,
)
    requires
        u.len() == v.len(),
        0 <= from,
    ensures
        moment(blend(a, u, b, v), half, p, from) == a * moment(u, half, p, from) - b * moment(
            v,
            half,
            p,
            from,
        ),
    decreases u.len() - from,
{
    if from < u.len() {
        lemma_moment_of_blend(a, u, b, v, half, p, from + 1);
        let pw = power(from - half, p);
        let mu = moment(u, half, p, from + 1);
        let mv = moment(v, half, p, from + 1);
        let x = u[from];
        let y = v[from];
        assert(blend(a, u, b, v)[from] == a * x - b * y);
        assert((a * x - b * y) * pw + (a * mu - b * mv) == a * (x * pw + mu) - b * (y * pw + mv))
            by (nonlinear_arith);
    }
}

/// The values of a blend of polynomials are the blend of their values.
proof fn lemma_value_of_blend(
    a: int,
    q1: Seq<int>,
    b: int,
    q2: Seq<int>,
    x: int,
    from: int,
)
    requires
        q1.len() == q2.len(),
        0 <= from,
    ensures
        poly_value(blend(a, q1, b, q2), x, from) == a * poly_value(q1, x, from) - b * poly_value(
            q2,
            x,
            from,
        ),
    decreases q1.len() - from,
{
    if from < q1.len() {
        lemma_value_of_blend(a, q1, b, q2, x, from + 1);
        let v1 = poly_value(q1, x, from + 1);
        let v2 = poly_value(q2, x, from + 1);
        let c1 = q1[from];
        let c2 = q2[from];
        assert(blend(a, q1, b, q2)[from] == a * c1 - b * c2);
        assert((a * c1 - b * c2) + x * (a * v1 - b * v2) == a * (c1 + x * v1) - b * (c2 + x * v2))
            by (nonlinear_arith);
    }
}

/// Four factors paired the other way round.
proof fn lemma_regroup(a: int, b: int, c: int, d: int)
    ensures
        (a * b) * (c * d) == (a * c) * (b * d),
{
    let cd = c * d;
    let bd = b * d;
    assert((a * b) * cd == a * (b * cd)) by (nonlinear_arith);
    assert(b * cd == c * bd) by (nonlinear_arith)
        requires
            cd == c * d,
            bd == b * d,
    ;
    assert(a * (c * bd) == (a * c) * bd) by (nonlinear_arith);
}

/// A sum of squares is not negative.
proof fn lemma_squares_nonnegative(w: Seq<int>, from: int)
    requires
        0 <= from,
    ensures
        squares(w, from) >= 0,
    decreases w.len() - from,
{
    if from < w.len() {
        lemma_squares_nonnegative(w, from + 1);
        let x = w[from];
        assert(x * x >= 0) by (nonlinear_arith);
    }
}

/// Where a sum of squares is zero, every entry is.
proof fn lemma_squares_zero(w: Seq<int>, from: int, i: int)
    requires
        0 <= from <= i < w.len(),
        squares(w, from) == 0,
    ensures
        w[i] == 0,
    decreases w.len() - from,
{
    let x = w[from];
    lemma_squares_nonnegative(w, from + 1);
    assert(x * x >= 0) by (nonlinear_arith);
    if i == from {
        assert(x == 0) by (nonlinear_arith)
            requires
                x * x == 0,
        ;
    } else {
        lemma_squares_zero(w, from + 1, i);
    }
}

/// Where the polynomial takes `s` times each weight at that weight's
/// offset, the weighted sum is `s` times the sum of squares.
proof fn lemma_weighted_squares(w: Seq<int>, half: int, r: Seq<int>, s: int, from: int)
    requires
        0 <= from,
        forall|i: int| 0 <= i < w.len() ==> poly_value(r, i - half, 0) == s * #[trigger] w[i],
    ensures
        weighted_values(w, half, r, from) == s * squares(w, from),
    decreases w.len() - from,
{
    if from < w.len() {
        lemma_weighted_squares(w, half, r, s, from + 1);
        let x = w[from];
        let rest = squares(w, from + 1);
        assert(poly_value(r, from - half, 0) == s * x);
        assert(x * (s * x) + s * rest == s * (x * x + rest)) by (nonlinear_arith);
    } else {
        assert(s * 0 == 0);
    }
}

/// Moments like a unit impulse's and values on one polynomial are met by
/// one set of weights only: two kernels for the same half-width and order
/// hold the same fractions, entry by entry.
pub proof fn lemma_kernel_unique(
    half: int,
    order: int,
    nums: Seq<i64>,
    den: i64,
    others: Seq<i64>,
    other_den: i64,
)
    requires
        0 <= order,
        is_smoothing_kernel(half, order, nums, den),
        is_smoothing_kernel(half, order, others, other_den),
    ensures
        nums.len() == others.len(),
        forall|i: int| 0 <= i < nums.len() ==> #[trigger] nums[i] * other_den == others[i] * den,
{
    let (q1, s1) = choose|poly: Seq<int>, scale: int| #[trigger]
        lies_on(nums, half, order, poly, scale);
    let (q2, s2) = choose|poly: Seq<int>, scale: int| #[trigger]
        lies_on(others, half, order, poly, scale);
    let u = as_ints(nums);
    let v = as_ints(others);
    let d1 = den as int;
    let d2 = other_den as int;
    let w = blend(d2, u, d1, v);
    let r = blend(s2 * d2, q1, s1 * d1, q2);
    let s = s1 * s2;
    assert forall|p: nat| p <= order implies #[trigger] moment(w, half, p, 0) == 0 by {
        lemma_moment_of_blend(d2, u, d1, v, half, p, 0);
        assert(moment(u, half, p, 0) == moment_target(p, den));
        assert(moment(v, half, p, 0) == moment_target(p, other_den));
        if p == 0 {
            assert(d2 * d1 - d1 * d2 == 0) by (nonlinear_arith);
        } else {
            assert(d2 * 0 - d1 * 0 == 0);
        }
    }
    assert forall|i: int| 0 <= i < w.len() implies poly_value(r, i - half, 0) == s
        * #[trigger] w[i] by {
        lemma_value_of_blend(s2 * d2, q1, s1 * d1, q2, i - half, 0);
        let a = nums[i] as int;
        let b = others[i] as int;
        let p1 = poly_value(q1, i - half, 0);
        let p2 = poly_value(q2, i - half, 0);
        assert(s1 * nums[i] == p1);
        assert(s2 * others[i] == p2);
        assert(w[i] == d2 * a - d1 * b);
        lemma_regroup(s2, d2, s1, a);
        lemma_regroup(s1, d1, s2, b);
        let t1 = d2 * a;
        let t2 = d1 * b;
        assert((s2 * s1) * t1 == s * t1) by (nonlinear_arith)
            requires
                s == s1 * s2,
        ;
        assert(s * t1 - s * t2 == s * (t1 - t2)) by (nonlinear_arith);
    }
    lemma_blind_to_polynomials(w, half, order, r);
    lemma_weighted_squares(w, half, r, s, 0);
    lemma_squares_nonnegative(w, 0);
    let total = squares(w, 0);
    assert(total == 0) by (nonlinear_arith)
        requires
            s * total == 0,
            s == s1 * s2,
            s1 != 0,
            s2 != 0,
    ;
    assert forall|i: int| 0 <= i < nums.len() implies #[trigger] nums[i] * other_den == others[i]
        * den by {
        lemma_squares_zero(w, 0, i);
        let a = nums[i] as int;
        let b = others[i] as int;
        assert(w[i] == d2 * a - d1 * b);
        assert(a * d2 == b * d1) by (nonlinear_arith)
            requires
                d2 * a - d1 * b == 0,
        ;
    }
}

} // verus!
