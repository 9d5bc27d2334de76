//! Small counting loops whose closed form is known in advance, and the
//! filter for callers that hold their samples in vectors of equal length.

use crate::error::FilterError;
use crate::filter::filter_outcome;
use crate::kernel::folds_to;
use vstd::prelude::*;

verus! {

/// Number of rounds that `const_trip_count_loop` runs.
pub const FIXED_TRIP_COUNT: i32 = 10_000_000;

/// What a loop that adds two per round yields after `rounds` rounds,
/// a negative count meaning no round at all.
pub open spec fn stepped_by_two(start: int, rounds: int) -> int {
    if rounds <= 0 {
        start
    } else {
        start + 2 * rounds
    }
}

/// Adds two to `x`, `n` times over. A non-positive `n` leaves `x` as it is.
pub fn runtime_loop(x: i32, n: i32) -> (res: i32)
    requires
        stepped_by_two(x as int, n as int) <= i32::MAX,
    ensures
        res == stepped_by_two(x as int, n as int),
{
    let mut res: i32 = x;
    let mut i: i32 = 0;
    while i < n
        invariant
            0 <= i,
            n > 0 ==> i <= n,
            n <= 0 ==> i == 0,
            res == x + 2 * i,
            stepped_by_two(x as int, n as int) <= i32::MAX,
        decreases n - i,
    {
        res = res + 2;
        i = i + 1;
    }
    res
}

/// Adds two to `x`, ten million times over.
pub fn const_trip_count_loop(x: i32) -> (res: i32)
    requires
        x + 2 * FIXED_TRIP_COUNT <= i32::MAX,
    ensures
        res == x + 2 * FIXED_TRIP_COUNT,
{
    let mut res: i32 = x;
    let mut i: i32 = 0;
    while i < FIXED_TRIP_COUNT
        invariant
            0 <= i <= FIXED_TRIP_COUNT,
            res == x + 2 * i,
            x + 2 * FIXED_TRIP_COUNT <= i32::MAX,
        decreases FIXED_TRIP_COUNT - i,
    {
        res = res + 2;
        i = i + 1;
    }
    res
}

/// Adds two to `x`, `N` times over, with the count fixed at compile time.
pub fn const_generic_trip_count_loop<const N: u32>(x: i32) -> (res: i32)
    requires
        x + 2 * N <= i32::MAX,
    ensures
        res == x + 2 * N,
{
    let mut res: i32 = x;
    let mut i: u32 = 0;
    while i < N
        invariant
            i <= N,
            res == x + 2 * i,
            x + 2 * N <= i32::MAX,
        decreases N - i,
    {
        res = res + 2;
        i = i + 1;
    }
    res
}

/// Overwrites `buf` with the weighted sum of `data` under `coeffs`, which
/// must be as many, accumulated from `zero` in index order.
pub fn dot_prod_update<T: Copy, F: Fn(T, T, T) -> T>(
    buf: &mut T,
    data: &[T],
    coeffs: &[T],
    zero: T,
    step: &F,
)
    requires
        data@.len() == coeffs@.len(),
        forall|acc: T, a: T, b: T| call_requires(*step, (acc, a, b)),
    ensures
        folds_to(*step, zero, data@, coeffs@, data@.len(), *final(buf)),
{
    crate::kernel::dot_prod_update(buf, data, coeffs, zero, step);
}

/// The smoothing filter of `crate::filter::sav_gol` on two vectors of equal
/// length.
pub fn sav_gol<const WINDOW: usize, const M: usize, T: Copy, R: Fn(i64, i64) -> T, F: Fn(
    T,
    T,
    T,
) -> T>(buf: &mut Vec<T>, data: &Vec<T>, ratio: &R, step: &F) -> (res: Result<(), FilterError>)
    requires
        old(buf)@.len() == data@.len(),
        forall|n: i64, d: i64| call_requires(*ratio, (n, d)),
        forall|acc: T, a: T, b: T| call_requires(*step, (acc, a, b)),
    ensures
        filter_outcome(
            *ratio,
            *step,
            WINDOW as int,
            M as int,
            data@,
            old(buf)@,
            res,
            final(buf)@,
        ),
{
    crate::filter::sav_gol::<WINDOW, M, T, R, F>(
        buf.as_mut_slice(),
        data.as_slice(),
        ratio,
        step,
    )
}

} // verus!
