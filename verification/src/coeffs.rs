//! Exact Savitzky-Golay weights as integers over a common denominator.

use crate::arith::{
    divide_exactly, exact_quotient, gcd, gcd_of, magnitude, magnitude_of, signed, LIMIT,
};
use crate::error::FilterError;
use crate::meaning::lemma_lowest_terms_is_kernel;
use crate::moments::{
    as_ints, lemma_power_sums_len, moment, moment_acc, moment_of, poly_value, power, power_sums,
    power_sums_of, sample, sampled,
};
use crate::solver::{
    common_denominator, common_denominator_of, eliminate, eliminated, gram_rows, gram_rows_of,
    numerators, numerators_of,
};
use vstd::prelude::*;

verus! {

/// The greatest common divisor of `acc` and of the values from `from` on.
pub open spec fn content(values: Seq<i64>, from: int, acc: nat) -> nat
    decreases values.len() - from,
{
    if from >= values.len() || from < 0 {
        acc
    } else {
        content(values, from + 1, gcd(acc, magnitude(values[from] as int)))
    }
}

/// Computes the greatest common divisor of `acc` and all of `values`.
pub fn content_of(values: &Vec<i64>, acc: u128) -> (g: u128)
    ensures
        g == content(values@, 0, acc as nat),
{
    let mut g: u128 = acc;
    let mut i: usize = 0;
    while i < values.len()
        invariant
            i <= values@.len(),
            content(values@, i as int, g as nat) == content(values@, 0, acc as nat),
        decreases values@.len() - i,
    {
        g = gcd_of(g, magnitude_of(values[i] as i128));
        i = i + 1;
    }
    g
}

/// The values from `sofar.len()` on, each divided exactly by `g` and turned
/// in sign where `flip` is set, appended to `sofar`.
pub open spec fn reduced_acc(values: Seq<i64>, g: nat, flip: bool, sofar: Seq<i64>) -> Option<
    Seq<i64>,
>
    decreases values.len() - sofar.len(),
{
    if sofar.len() >= values.len() {
        Some(sofar)
    } else {
        match exact_quotient(values[sofar.len() as int], g, flip) {
            Some(q) => reduced_acc(values, g, flip, sofar.push(q)),
            None => None,
        }
    }
}

/// All of `values` divided exactly by `g`.
pub open spec fn reduced(values: Seq<i64>, g: nat, flip: bool) -> Option<Seq<i64>> {
    reduced_acc(values, g, flip, Seq::empty())
}

/// Divides every one of `values` by `g`.
pub fn reduce(values: &Vec<i64>, g: u128, flip: bool) -> (res: Option<Vec<i64>>)
    ensures
        res.is_some() == reduced(values@, g as nat, flip).is_some(),
        res matches Some(out) ==> {
            &&& reduced(values@, g as nat, flip) == Some(out@)
            &&& out@.len() == values@.len()
            &&& forall|i: int|
                0 <= i < out@.len() ==> (#[trigger] out@[i]) * g == signed(values@[i] as int, flip)
        },
{
    let mut out: Vec<i64> = Vec::new();
    while out.len() < values.len()
        invariant
            out@.len() <= values@.len(),
            reduced_acc(values@, g as nat, flip, out@) == reduced(values@, g as nat, flip),
            forall|i: int|
                0 <= i < out@.len() ==> (#[trigger] out@[i]) * g == signed(values@[i] as int, flip),
        decreases values@.len() - out@.len(),
    {
        match divide_exactly(values[out.len()], g, flip) {
            Some(q) => {
                out.push(q);
            },
            None => {
                return None;
            },
        }
    }
    Some(out)
}

/// What the `p`-th moment of a smoothing kernel over `den` has to be: the
/// whole for `p == 0`, nothing for the higher ones.
pub open spec fn moment_target(p: nat, den: i64) -> i64 {
    if p == 0 {
        den
    } else {
        0
    }
}

/// The moments of orders `p` to `order` can all be computed and are what
/// they have to be.
pub open spec fn moments_match(weights: Seq<i64>, den: i64, half: i64, order: nat, p: nat) -> bool
    decreases order + 1 - p,
{
    if p > order {
        true
    } else {
        moment_acc(weights, half, p, 0, 0) == Some(moment_target(p, den)) && moments_match(
            weights,
            den,
            half,
            order,
            p + 1,
        )
    }
}

/// Computes the moments of orders `0 ..= order` and compares each with what
/// it has to be.
pub fn check_moments(weights: &Vec<i64>, den: i64, half: i64, order: usize) -> (ok: bool)
    requires
        0 <= half,
        2 * half + 1 <= i64::MAX,
        weights@.len() <= 2 * half + 1,
        order < usize::MAX,
    ensures
        ok == moments_match(weights@, den, half, order as nat, 0),
        ok ==> forall|p: nat|
            p <= order ==> #[trigger] moment(as_ints(weights@), half as int, p, 0)
                == moment_target(p, den),
{
    let mut p: usize = 0;
    while p <= order
        invariant
            p <= order + 1,
            order < usize::MAX,
            0 <= half,
            2 * half + 1 <= i64::MAX,
            weights@.len() <= 2 * half + 1,
            moments_match(weights@, den, half, order as nat, p as nat) == moments_match(
                weights@,
                den,
                half,
                order as nat,
                0,
            ),
            forall|q: nat|
                q < p ==> #[trigger] moment(as_ints(weights@), half as int, q, 0)
                    == moment_target(q, den),
        decreases order + 1 - p,
    {
        let target: i64 = if p == 0 {
            den
        } else {
            0
        };
        match moment_of(weights, half, p) {
            Some(v) => {
                if v != target {
                    return false;
                }
            },
            None => {
                return false;
            },
        }
        p = p + 1;
    }
    true
}

/// Highest moment order that is attempted. With two or more samples on
/// either side, a higher one needs power sums beyond 64 bits.
pub const ORDER_LIMIT: usize = 30;

/// The weights of a smoothing filter, each `numerators[i] / denominator`,
/// for the offsets `-W ..= W` in turn.
#[derive(Clone, Debug)]
pub struct Coefficients {
    pub numerators: Vec<i64>,
    pub denominator: i64,
}

/// A window of half-width `half` can be indexed and its size stored.
pub open spec fn window_fits(half: int) -> bool {
    2 * half + 1 <= LIMIT && 2 * half + 1 <= usize::MAX
}

/// Up to the factor `scale`, which is not zero, the values `nums` are those
/// of the polynomial `poly` of degree `order` at the offsets `i - half`.
pub open spec fn lies_on(nums: Seq<i64>, half: int, order: int, poly: Seq<int>, scale: int) -> bool {
    &&& scale != 0
    &&& poly.len() == order + 1
    &&& forall|i: int|
        0 <= i < nums.len() ==> scale * (#[trigger] nums[i]) == poly_value(poly, i - half, 0)
}

/// `nums[i] / den` are the weights of the least-squares smoothing filter of
/// half-width `half` and moment order `order`: they weigh a window so that
/// the sum is the value, at the centre, of the polynomial of degree `order`
/// fitted to the window.
///
/// Two facts pin them down. Their moments up to `order` are those of a unit
/// impulse at the centre, so polynomials up to that degree pass through
/// unchanged. And they are themselves the values, at the offsets, of one
/// polynomial of degree `order`.
pub open spec fn is_smoothing_kernel(half: int, order: int, nums: Seq<i64>, den: i64) -> bool {
    &&& nums.len() == 2 * half + 1
    &&& den > 0
    &&& forall|p: nat|
        p <= order ==> #[trigger] moment(as_ints(nums), half, p, 0) == moment_target(p, den)
    &&& exists|poly: Seq<int>, scale: int| #[trigger] lies_on(nums, half, order, poly, scale)
}

/// The weights in lowest terms that integer elimination on the normal
/// equations yields, as numerators and their denominator; `None` where the
/// window or the order is out of range, a pivot vanishes, or a value on the
/// way cannot be stored in 64 bits.
pub open spec fn solved(half: int, order: int) -> Option<(Seq<i64>, i64)> {
    if half < 0 || order < 0 || order > ORDER_LIMIT || !window_fits(half) {
        None
    } else {
        match power_sums(half as i64, (2 * order + 1) as nat) {
            None => None,
            Some(sums) => match eliminated(gram_rows(sums, order + 1), 0) {
                None => None,
                Some(diagonal) => match common_denominator(diagonal) {
                    None => None,
                    Some(d) => match numerators(diagonal, d) {
                        None => None,
                        Some(poly) => match sampled(poly, half as i64) {
                            None => None,
                            Some(raw) => lowest_terms(raw, d, half as i64, order as nat),
                        },
                    },
                },
            },
        }
    }
}

/// The fractions `raw[i] / d` in lowest terms over a positive denominator,
/// where the division is exact and the moments up to `order` are then those
/// of a smoothing kernel.
pub open spec fn lowest_terms(raw: Seq<i64>, d: i64, half: i64, order: nat) -> Option<
    (Seq<i64>, i64),
> {
    let g = content(raw, 0, magnitude(d as int));
    match (reduced(raw, g, d < 0), exact_quotient(d, g, d < 0)) {
        (Some(nums), Some(den)) => if den > 0 && moments_match(nums, den, half, order, 0) {
            Some((nums, den))
        } else {
            None
        },
        _ => None,
    }
}

/// What `compute_coefficients` answers for a half-width and a moment order.
pub open spec fn coefficients_for(half: int, order: int, res: Result<Coefficients, FilterError>) -> bool {
    if order > 2 * half {
        res == Err::<Coefficients, FilterError>(FilterError::InvalidWindowParameters)
    } else {
        match solved(half, order) {
            None => res == Err::<Coefficients, FilterError>(FilterError::SingularSystem),
            Some((nums, den)) => {
                &&& res is Ok
                &&& res->Ok_0.numerators@ == nums
                &&& res->Ok_0.denominator == den
            },
        }
    }
}

/// The weights are settled by the half-width and the order alone: any two
/// answers to the same request are the same refusal, or hold the same
/// numerators over the same denominator.
pub proof fn lemma_coefficients_deterministic(
    half: int,
    order: int,
    one: Result<Coefficients, FilterError>,
    other: Result<Coefficients, FilterError>,
)
    requires
        coefficients_for(half, order, one),
        coefficients_for(half, order, other),
    ensures
        one is Ok <==> other is Ok,
        one is Ok ==> one->Ok_0.numerators@ == other->Ok_0.numerators@ && one->Ok_0.denominator
            == other->Ok_0.denominator,
        one is Err ==> one->Err_0 == other->Err_0,
{
}

/// An order above twice the half-width is refused as invalid, and nothing
/// else is.
pub proof fn lemma_invalid_parameters(
    half: int,
    order: int,
    res: Result<Coefficients, FilterError>,
)
    requires
        coefficients_for(half, order, res),
    ensures
        order > 2 * half <==> res == Err::<Coefficients, FilterError>(
            FilterError::InvalidWindowParameters,
        ),
{
}

/// The sum of the values from `from` on.
pub open spec fn total(values: Seq<i64>, from: int) -> int
    decreases values.len() - from,
{
    if from >= values.len() || from < 0 {
        0
    } else {
        values[from] + total(values, from + 1)
    }
}

/// The moment of order zero is the plain sum.
pub proof fn lemma_zeroth_moment(values: Seq<i64>, half: int, from: int)
    requires
        0 <= from,
    ensures
        moment(as_ints(values), half, 0, from) == total(values, from),
    decreases values.len() - from,
{
    if from < values.len() {
        lemma_zeroth_moment(values, half, from + 1);
        assert(power(from - half, 0) == 1);
        assert(values[from] * 1 == values[from]);
    }
}

/// The weights of a smoothing kernel sum to one: their numerators sum to
/// the denominator. This holds for pure smoothing, of order zero, and for
/// every higher order as well.
pub proof fn lemma_weights_sum_to_one(half: int, order: int, nums: Seq<i64>, den: i64)
    requires
        0 <= order,
        is_smoothing_kernel(half, order, nums, den),
    ensures
        total(nums, 0) == den,
{
    lemma_zeroth_moment(nums, half, 0);
    assert(moment(as_ints(nums), half, 0nat, 0) == moment_target(0nat, den));
}

/// Reduces the sampled fit to lowest terms and checks its moments.
fn finish(raw: &Vec<i64>, poly: &Vec<i64>, d: i64, half: i64, order: usize) -> (res: Option<
    Coefficients,
>)
    requires
        0 <= half,
        window_fits(half as int),
        raw@.len() == 2 * half + 1,
        poly@.len() == order + 1,
        order <= ORDER_LIMIT,
        forall|i: int|
            0 <= i < raw@.len() ==> #[trigger] raw@[i] == poly_value(as_ints(poly@), i - half, 0),
    ensures
        res.is_some() == lowest_terms(raw@, d, half, order as nat).is_some(),
        res matches Some(c) ==> {
            &&& lowest_terms(raw@, d, half, order as nat) == Some((c.numerators@, c.denominator))
            &&& is_smoothing_kernel(half as int, order as int, c.numerators@, c.denominator)
        },
{
    let flip: bool = d < 0;
    let g: u128 = content_of(raw, magnitude_of(d as i128));
    let nums: Vec<i64> = match reduce(raw, g, flip) {
        Some(v) => v,
        None => {
            return None;
        },
    };
    let den: i64 = match divide_exactly(d, g, flip) {
        Some(v) => v,
        None => {
            return None;
        },
    };
    if den <= 0 {
        return None;
    }
    if !check_moments(&nums, den, half, order) {
        return None;
    }
    proof {
        lemma_lowest_terms_is_kernel(raw@, d, half, order as nat, poly@);
    }
    Some(Coefficients { numerators: nums, denominator: den })
}

/// Carries the solve through for parameters that are in range.
fn solve(half: i64, order: usize) -> (res: Option<Coefficients>)
    requires
        0 <= half,
        window_fits(half as int),
        order <= ORDER_LIMIT,
    ensures
        res.is_some() == solved(half as int, order as int).is_some(),
        res matches Some(c) ==> {
            &&& solved(half as int, order as int) == Some((c.numerators@, c.denominator))
            &&& is_smoothing_kernel(half as int, order as int, c.numerators@, c.denominator)
        },
{
    let n: usize = order + 1;
    let sums: Vec<i64> = match power_sums_of(half, 2 * order + 1) {
        Some(v) => v,
        None => {
            return None;
        },
    };
    proof {
        lemma_power_sums_len(half, (2 * order + 1) as nat, Seq::empty());
    }
    let rows: Vec<Vec<i64>> = gram_rows_of(&sums, n);
    let diagonal: Vec<Vec<i64>> = match eliminate(rows, n) {
        Some(v) => v,
        None => {
            return None;
        },
    };
    let d: i64 = match common_denominator_of(&diagonal, n) {
        Some(v) => v,
        None => {
            return None;
        },
    };
    let poly: Vec<i64> = match numerators_of(&diagonal, n, d) {
        Some(v) => v,
        None => {
            return None;
        },
    };
    let raw: Vec<i64> = match sample(&poly, half) {
        Some(v) => v,
        None => {
            return None;
        },
    };
    finish(&raw, &poly, d, half, order)
}

/// The weights of the smoothing filter of half-width `half_window` that
/// keeps the moments up to `moment_order`, in lowest terms over a positive
/// denominator.
///
/// Fails with `InvalidWindowParameters` exactly where `moment_order` exceeds
/// `2 * half_window`, and else with `SingularSystem` exactly where the
/// integer solve cannot be carried through.
pub fn compute_coefficients(half_window: usize, moment_order: usize) -> (res: Result<
    Coefficients,
    FilterError,
>)
    ensures
        coefficients_for(half_window as int, moment_order as int, res),
        res matches Ok(c) ==> is_smoothing_kernel(
            half_window as int,
            moment_order as int,
            c.numerators@,
            c.denominator,
        ),
{
    if moment_order - moment_order / 2 > half_window {
        return Err(FilterError::InvalidWindowParameters);
    }
    if moment_order > ORDER_LIMIT {
        return Err(FilterError::SingularSystem);
    }
    if half_window > (usize::MAX - 1) / 2 || half_window as u128 > (LIMIT as u128 - 1) / 2 {
        return Err(FilterError::SingularSystem);
    }
    match solve(half_window as i64, moment_order) {
        Some(c) => Ok(c),
        None => Err(FilterError::SingularSystem),
    }
}

} // verus!
