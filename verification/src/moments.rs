//! Powers of window offsets and the sums built from them.

use crate::arith::{narrow, narrowed, wide_mul};
use vstd::prelude::*;

verus! {

/// `x` raised to the power `p`.
pub open spec fn power(x: int, p: nat) -> int
    decreases p,
{
    if p == 0 {
        1
    } else {
        x * power(x, (p - 1) as nat)
    }
}

/// `acc` times `x` to the power `p`, multiplied up one factor at a time;
/// `None` as soon as a product cannot be stored.
pub open spec fn power_acc(x: i64, p: nat, acc: i64) -> Option<i64>
    decreases p,
{
    if p == 0 {
        Some(acc)
    } else {
        match narrow(acc * x) {
            Some(v) => power_acc(x, (p - 1) as nat, v),
            None => None,
        }
    }
}

/// `x` to the power `p` as a stored value.
pub open spec fn checked_power(x: i64, p: nat) -> Option<i64> {
    power_acc(x, p, 1)
}

/// What `power_acc` yields is the product it stands for.
pub proof fn lemma_power_acc(x: i64, p: nat, acc: i64)
    ensures
        power_acc(x, p, acc) matches Some(v) ==> v == acc * power(x as int, p),
    decreases p,
{
    if p > 0 {
        if let Some(v) = narrow(acc * x) {
            lemma_power_acc(x, (p - 1) as nat, v);
            assert(acc * x * power(x as int, (p - 1) as nat) == acc * (x * power(
                x as int,
                (p - 1) as nat,
            ))) by (nonlinear_arith);
        }
    } else {
        assert(acc * 1 == acc);
    }
}

/// Raises `x` to the power `p`.
pub fn checked_pow(x: i64, p: usize) -> (res: Option<i64>)
    ensures
        res == checked_power(x, p as nat),
        res matches Some(v) ==> v == power(x as int, p as nat),
{
    let mut acc: i64 = 1;
    let mut left: usize = p;
    while left > 0
        invariant
            power_acc(x, left as nat, acc) == checked_power(x, p as nat),
        decreases left,
    {
        match narrowed(wide_mul(acc, x)) {
            Some(v) => {
                acc = v;
            },
            None => {
                return None;
            },
        }
        left = left - 1;
    }
    proof {
        lemma_power_acc(x, p as nat, 1);
    }
    Some(acc)
}

/// The sum of the `s`-th powers of the offsets `i - half` for `i` from
/// `from` to `2 * half`, added to `acc` one term at a time; `None` as soon as
/// a power or a partial sum cannot be stored.
pub open spec fn power_sum_acc(half: i64, s: nat, from: int, acc: i64) -> Option<i64>
    decreases 2 * half + 1 - from,
{
    if from > 2 * half {
        Some(acc)
    } else {
        match checked_power((from - half) as i64, s) {
            Some(term) => match narrow(acc + term) {
                Some(v) => power_sum_acc(half, s, from + 1, v),
                None => None,
            },
            None => None,
        }
    }
}

/// The sum of the `s`-th powers of all offsets of a window of half-width
/// `half`, as a stored value.
pub open spec fn power_sum(half: i64, s: nat) -> Option<i64> {
    power_sum_acc(half, s, 0, 0)
}

/// Sums the `s`-th powers of the offsets `-half ..= half`.
pub fn power_sum_of(half: i64, s: usize) -> (res: Option<i64>)
    requires
        0 <= half,
        2 * half + 1 <= i64::MAX,
    ensures
        res == power_sum(half, s as nat),
{
    let last: i64 = 2 * half;
    let mut acc: i64 = 0;
    let mut i: i64 = 0;
    while i <= last
        invariant
            0 <= i <= last + 1,
            last == 2 * half,
            last < i64::MAX,
            power_sum_acc(half, s as nat, i as int, acc) == power_sum(half, s as nat),
        decreases last + 1 - i,
    {
        let term: i64 = match checked_pow(i - half, s) {
            Some(t) => t,
            None => {
                return None;
            },
        };
        match narrowed(acc as i128 + term as i128) {
            Some(v) => {
                acc = v;
            },
            None => {
                return None;
            },
        }
        i = i + 1;
    }
    Some(acc)
}

/// The power sums of orders `sofar.len()` up to, not including, `count`,
/// appended to `sofar`; `None` as soon as one cannot be stored.
pub open spec fn power_sums_acc(half: i64, count: nat, sofar: Seq<i64>) -> Option<Seq<i64>>
    decreases count - sofar.len(),
{
    if sofar.len() >= count {
        Some(sofar)
    } else {
        match power_sum(half, sofar.len()) {
            Some(v) => power_sums_acc(half, count, sofar.push(v)),
            None => None,
        }
    }
}

/// The power sums of orders `0` up to, not including, `count`.
pub open spec fn power_sums(half: i64, count: nat) -> Option<Seq<i64>> {
    power_sums_acc(half, count, Seq::empty())
}

/// The power sums come one for each order asked for.
pub proof fn lemma_power_sums_len(half: i64, count: nat, sofar: Seq<i64>)
    requires
        sofar.len() <= count,
    ensures
        power_sums_acc(half, count, sofar) matches Some(sums) ==> sums.len() == count,
    decreases count - sofar.len(),
{
    if sofar.len() < count {
        if let Some(v) = power_sum(half, sofar.len()) {
            lemma_power_sums_len(half, count, sofar.push(v));
        }
    }
}

/// Computes the power sums of orders `0 .. count`.
pub fn power_sums_of(half: i64, count: usize) -> (res: Option<Vec<i64>>)
    requires
        0 <= half,
        2 * half + 1 <= i64::MAX,
    ensures
        res.is_some() == power_sums(half, count as nat).is_some(),
        res matches Some(v) ==> power_sums(half, count as nat) == Some(v@),
{
    let mut sums: Vec<i64> = Vec::new();
    while sums.len() < count
        invariant
            0 <= half,
            2 * half + 1 <= i64::MAX,
            power_sums_acc(half, count as nat, sums@) == power_sums(half, count as nat),
        decreases count - sums.len(),
    {
        match power_sum_of(half, sums.len()) {
            Some(v) => {
                sums.push(v);
            },
            None => {
                return None;
            },
        }
    }
    Some(sums)
}

/// Stored values as the integers they stand for.
pub open spec fn as_ints(values: Seq<i64>) -> Seq<int> {
    values.map_values(|v: i64| v as int)
}

/// The value at `x` of the polynomial whose weights from `from` on are
/// `poly[from]`, `poly[from + 1]` and so on, lowest power first.
pub open spec fn poly_value(poly: Seq<int>, x: int, from: int) -> int
    decreases poly.len() - from,
{
    if from >= poly.len() || from < 0 {
        0
    } else {
        poly[from] + x * poly_value(poly, x, from + 1)
    }
}

/// Horner's rule on the lowest `left` weights of `poly`, with `acc` standing
/// for the part above them; `None` as soon as a value cannot be stored.
pub open spec fn horner_acc(poly: Seq<i64>, x: i64, left: nat, acc: i64) -> Option<i64>
    decreases left,
{
    if left == 0 {
        Some(acc)
    } else {
        match narrow(acc * x + poly[left - 1]) {
            Some(v) => horner_acc(poly, x, (left - 1) as nat, v),
            None => None,
        }
    }
}

/// The value of the polynomial `poly` at `x`, as a stored value.
pub open spec fn checked_value(poly: Seq<i64>, x: i64) -> Option<i64> {
    horner_acc(poly, x, poly.len(), 0)
}

/// What Horner's rule yields is the polynomial's value.
pub proof fn lemma_horner_acc(poly: Seq<i64>, x: i64, left: nat, acc: i64)
    requires
        left <= poly.len(),
        acc == poly_value(as_ints(poly), x as int, left as int),
    ensures
        horner_acc(poly, x, left, acc) matches Some(v) ==> v == poly_value(
            as_ints(poly),
            x as int,
            0,
        ),
    decreases left,
{
    if left > 0 {
        if let Some(v) = narrow(acc * x + poly[left - 1]) {
            assert(acc * x == x * acc) by (nonlinear_arith);
            lemma_horner_acc(poly, x, (left - 1) as nat, v);
        }
    }
}

/// Evaluates the polynomial `poly` at `x`.
pub fn value_at(poly: &Vec<i64>, x: i64) -> (res: Option<i64>)
    ensures
        res == checked_value(poly@, x),
        res matches Some(v) ==> v == poly_value(as_ints(poly@), x as int, 0),
{
    let mut acc: i64 = 0;
    let mut left: usize = poly.len();
    while left > 0
        invariant
            left <= poly@.len(),
            horner_acc(poly@, x, left as nat, acc) == checked_value(poly@, x),
        decreases left,
    {
        match narrowed(wide_mul(acc, x) + poly[left - 1] as i128) {
            Some(v) => {
                acc = v;
            },
            None => {
                return None;
            },
        }
        left = left - 1;
    }
    proof {
        lemma_horner_acc(poly@, x, poly@.len(), 0);
    }
    Some(acc)
}

/// The values of `poly` at the offsets `i - half` for `i` from `sofar.len()`
/// to `2 * half`, appended to `sofar`; `None` as soon as one cannot be
/// stored.
pub open spec fn sampled_acc(poly: Seq<i64>, half: i64, sofar: Seq<i64>) -> Option<Seq<i64>>
    decreases 2 * half + 1 - sofar.len(),
{
    if sofar.len() > 2 * half {
        Some(sofar)
    } else {
        match checked_value(poly, (sofar.len() - half) as i64) {
            Some(v) => sampled_acc(poly, half, sofar.push(v)),
            None => None,
        }
    }
}

/// The values of `poly` at every offset of a window of half-width `half`.
pub open spec fn sampled(poly: Seq<i64>, half: i64) -> Option<Seq<i64>> {
    sampled_acc(poly, half, Seq::empty())
}

/// Evaluates `poly` at the offsets `-half ..= half`.
pub fn sample(poly: &Vec<i64>, half: i64) -> (res: Option<Vec<i64>>)
    requires
        0 <= half,
        2 * half + 1 <= i64::MAX,
        2 * half + 1 <= usize::MAX,
    ensures
        res.is_some() == sampled(poly@, half).is_some(),
        res matches Some(v) ==> {
            &&& sampled(poly@, half) == Some(v@)
            &&& v@.len() == 2 * half + 1
            &&& forall|i: int|
                0 <= i < v@.len() ==> #[trigger] v@[i] == poly_value(as_ints(poly@), i - half, 0)
        },
{
    let last: i64 = 2 * half;
    let mut values: Vec<i64> = Vec::new();
    let mut i: i64 = 0;
    while i <= last
        invariant
            0 <= i <= last + 1,
            last == 2 * half,
            last < i64::MAX,
            last < usize::MAX,
            values@.len() == i,
            sampled_acc(poly@, half, values@) == sampled(poly@, half),
            forall|k: int|
                0 <= k < values@.len() ==> #[trigger] values@[k] == poly_value(
                    as_ints(poly@),
                    k - half,
                    0,
                ),
        decreases last + 1 - i,
    {
        match value_at(poly, i - half) {
            Some(v) => {
                values.push(v);
            },
            None => {
                return None;
            },
        }
        i = i + 1;
    }
    Some(values)
}

/// The `p`-th moment of the weights from `from` on: the sum of each weight
/// times the `p`-th power of its offset `i - half`.
pub open spec fn moment(weights: Seq<int>, half: int, p: nat, from: int) -> int
    decreases weights.len() - from,
{
    if from >= weights.len() || from < 0 {
        0
    } else {
        weights[from] * power(from - half, p) + moment(weights, half, p, from + 1)
    }
}

/// The `p`-th moment of the weights from `from` on, added to `acc` one term
/// at a time; `None` as soon as a power or a partial sum cannot be stored.
pub open spec fn moment_acc(weights: Seq<i64>, half: i64, p: nat, from: int, acc: i64) -> Option<
    i64,
>
    decreases weights.len() - from,
{
    if from >= weights.len() || from < 0 {
        Some(acc)
    } else {
        match checked_power((from - half) as i64, p) {
            Some(pw) => match narrow(acc + weights[from] * pw) {
                Some(v) => moment_acc(weights, half, p, from + 1, v),
                None => None,
            },
            None => None,
        }
    }
}

/// What `moment_acc` yields is `acc` plus the moment it stands for.
pub proof fn lemma_moment_acc(weights: Seq<i64>, half: i64, p: nat, from: int, acc: i64)
    requires
        0 <= from,
        weights.len() <= 2 * half + 1,
        0 <= half,
        2 * half + 1 <= i64::MAX,
    ensures
        moment_acc(weights, half, p, from, acc) matches Some(v) ==> v == acc + moment(
            as_ints(weights),
            half as int,
            p,
            from,
        ),
    decreases weights.len() - from,
{
    if from < weights.len() {
        let x = (from - half) as i64;
        if let Some(pw) = checked_power(x, p) {
            lemma_power_acc(x, p, 1);
            assert(1 * power(x as int, p) == power(x as int, p));
            if let Some(v) = narrow(acc + weights[from] * pw) {
                lemma_moment_acc(weights, half, p, from + 1, v);
            }
        }
    }
}

/// Computes the `p`-th moment of `weights`.
pub fn moment_of(weights: &Vec<i64>, half: i64, p: usize) -> (res: Option<i64>)
    requires
        0 <= half,
        2 * half + 1 <= i64::MAX,
        weights@.len() <= 2 * half + 1,
    ensures
        res == moment_acc(weights@, half, p as nat, 0, 0),
        res matches Some(v) ==> v == moment(as_ints(weights@), half as int, p as nat, 0),
{
    let mut acc: i64 = 0;
    let mut i: usize = 0;
    while i < weights.len()
        invariant
            i <= weights@.len(),
            0 <= half,
            2 * half + 1 <= i64::MAX,
            weights@.len() <= 2 * half + 1,
            moment_acc(weights@, half, p as nat, i as int, acc) == moment_acc(
                weights@,
                half,
                p as nat,
                0,
                0,
            ),
        decreases weights@.len() - i,
    {
        let pw: i64 = match checked_pow(i as i64 - half, p) {
            Some(v) => v,
            None => {
                return None;
            },
        };
        match narrowed(acc as i128 + wide_mul(weights[i], pw)) {
            Some(v) => {
                acc = v;
            },
            None => {
                return None;
            },
        }
        i = i + 1;
    }
    proof {
        lemma_moment_acc(weights@, half, p as nat, 0, 0);
    }
    Some(acc)
}

} // verus!
