//! Integer elimination on the normal equations of the polynomial fit.

use crate::arith::{
    divide_exactly, exact_quotient, fits, gcd, gcd_of, magnitude, magnitude_of, narrow, narrowed,
    shrink, shrunk, wide_mul,
};
use vstd::prelude::*;

verus! {

/// Row `j` of the normal equations for a fit with `n` unknowns: the power
/// sums of orders `j .. j + n`, then the right-hand side, which is one in the
/// first row and zero in the others.
pub open spec fn gram_row(sums: Seq<i64>, n: int, j: int) -> Seq<i64> {
    Seq::new(
        (n + 1) as nat,
        |k: int|
            if k < n {
                sums[j + k]
            } else if j == 0 {
                1i64
            } else {
                0i64
            },
    )
}

/// The normal equations for a fit with `n` unknowns, one row per equation.
pub open spec fn gram_rows(sums: Seq<i64>, n: int) -> Seq<Seq<i64>> {
    Seq::new(n as nat, |j: int| gram_row(sums, n, j))
}

/// The rows that a vector of vectors holds.
pub open spec fn grid(rows: Seq<Vec<i64>>) -> Seq<Seq<i64>> {
    Seq::new(rows.len(), |r: int| rows[r]@)
}

/// Every one of the `n` rows has `n + 1` entries.
pub open spec fn shaped(rows: Seq<Seq<i64>>, n: int) -> bool {
    &&& rows.len() == n
    &&& forall|r: int| 0 <= r < n ==> (#[trigger] rows[r]).len() == n + 1
}

/// Lays out the normal equations from the power sums.
pub fn gram_rows_of(sums: &Vec<i64>, n: usize) -> (rows: Vec<Vec<i64>>)
    requires
        n >= 1,
        sums@.len() == 2 * n - 1,
        2 * n <= usize::MAX,
    ensures
        grid(rows@) == gram_rows(sums@, n as int),
        shaped(grid(rows@), n as int),
{
    let mut rows: Vec<Vec<i64>> = Vec::new();
    let mut j: usize = 0;
    while j < n
        invariant
            j <= n,
            n >= 1,
            2 * n <= usize::MAX,
            sums@.len() == 2 * n - 1,
            rows@.len() == j,
            forall|r: int| 0 <= r < j ==> (#[trigger] rows@[r])@ == gram_row(sums@, n as int, r),
        decreases n - j,
    {
        let mut row: Vec<i64> = Vec::new();
        let mut k: usize = 0;
        while k < n
            invariant
                k <= n,
                j < n,
                2 * n <= usize::MAX,
                sums@.len() == 2 * n - 1,
                row@.len() == k,
                forall|c: int| 0 <= c < k ==> #[trigger] row@[c] == sums@[j + c],
            decreases n - k,
        {
            row.push(sums[j + k]);
            k = k + 1;
        }
        if j == 0 {
            row.push(1);
        } else {
            row.push(0);
        }
        assert(row@ =~= gram_row(sums@, n as int, j as int));
        rows.push(row);
        j = j + 1;
    }
    assert(grid(rows@) =~= gram_rows(sums@, n as int));
    rows
}

/// Entry `j` of `pivot` times the row `target` less `factor` times the row
/// `source`.
pub open spec fn crossed(
    target: Seq<i64>,
    source: Seq<i64>,
    pivot: i64,
    factor: i64,
    j: int,
) -> int {
    pivot * target[j] - factor * source[j]
}

/// The greatest common divisor of `acc` and of the crossed entries from
/// `from` on.
pub open spec fn crossed_content(
    target: Seq<i64>,
    source: Seq<i64>,
    pivot: i64,
    factor: i64,
    from: int,
    acc: nat,
) -> nat
    decreases target.len() - from,
{
    if from >= target.len() {
        acc
    } else {
        crossed_content(
            target,
            source,
            pivot,
            factor,
            from + 1,
            gcd(acc, magnitude(crossed(target, source, pivot, factor, from))),
        )
    }
}

/// The crossed entries from `sofar.len()` on, each divided by `g`, appended
/// to `sofar`; `None` as soon as one cannot be stored.
pub open spec fn cancelled_acc(
    target: Seq<i64>,
    source: Seq<i64>,
    pivot: i64,
    factor: i64,
    g: nat,
    sofar: Seq<i64>,
) -> Option<Seq<i64>>
    decreases target.len() - sofar.len(),
{
    if sofar.len() >= target.len() {
        Some(sofar)
    } else {
        match narrow(shrunk(crossed(target, source, pivot, factor, sofar.len() as int), g)) {
            Some(v) => cancelled_acc(target, source, pivot, factor, g, sofar.push(v)),
            None => None,
        }
    }
}

/// The row `pivot * target - factor * source` with the common divisor of its
/// entries taken out, where every entry of it can be stored.
pub open spec fn cancelled(target: Seq<i64>, source: Seq<i64>, pivot: i64, factor: i64) -> Option<
    Seq<i64>,
> {
    cancelled_acc(
        target,
        source,
        pivot,
        factor,
        crossed_content(target, source, pivot, factor, 0, 0),
        Seq::empty(),
    )
}

/// One crossed entry, which 128 bits hold with room to negate it.
fn cross(pivot: i64, t: i64, factor: i64, s: i64) -> (r: i128)
    requires
        fits(pivot as int),
        fits(factor as int),
    ensures
        r == pivot * t - factor * s,
        r > i128::MIN,
{
    let a: i128 = wide_mul(pivot, t);
    let b: i128 = wide_mul(factor, s);
    proof {
        assert(-0x3fff_ffff_ffff_ffff_8000_0000_0000_0000 <= pivot * t
            <= 0x3fff_ffff_ffff_ffff_8000_0000_0000_0000) by (nonlinear_arith)
            requires
                -0x7fff_ffff_ffff_ffff <= pivot <= 0x7fff_ffff_ffff_ffff,
                -0x8000_0000_0000_0000 <= t <= 0x8000_0000_0000_0000,
        ;
        assert(-0x3fff_ffff_ffff_ffff_8000_0000_0000_0000 <= factor * s
            <= 0x3fff_ffff_ffff_ffff_8000_0000_0000_0000) by (nonlinear_arith)
            requires
                -0x7fff_ffff_ffff_ffff <= factor <= 0x7fff_ffff_ffff_ffff,
                -0x8000_0000_0000_0000 <= s <= 0x8000_0000_0000_0000,
        ;
    }
    a - b
}

/// Forms `pivot * target - factor * source` and takes the common divisor of
/// its entries out.
pub fn cancel_row(target: &Vec<i64>, source: &Vec<i64>, pivot: i64, factor: i64) -> (res: Option<
    Vec<i64>,
>)
    requires
        target@.len() == source@.len(),
        fits(pivot as int),
        fits(factor as int),
    ensures
        res.is_some() == cancelled(target@, source@, pivot, factor).is_some(),
        res matches Some(row) ==> cancelled(target@, source@, pivot, factor) == Some(row@)
            && row@.len() == target@.len(),
{
    let n: usize = target.len();
    let mut g: u128 = 0;
    let mut j: usize = 0;
    while j < n
        invariant
            j <= n,
            n == target@.len(),
            n == source@.len(),
            fits(pivot as int),
            fits(factor as int),
            crossed_content(target@, source@, pivot, factor, j as int, g as nat)
                == crossed_content(target@, source@, pivot, factor, 0, 0),
        decreases n - j,
    {
        let v: i128 = cross(pivot, target[j], factor, source[j]);
        g = gcd_of(g, magnitude_of(v));
        j = j + 1;
    }
    let mut row: Vec<i64> = Vec::new();
    while row.len() < n
        invariant
            n == target@.len(),
            n == source@.len(),
            fits(pivot as int),
            fits(factor as int),
            row@.len() <= n,
            cancelled_acc(target@, source@, pivot, factor, g as nat, row@) == cancelled(
                target@,
                source@,
                pivot,
                factor,
            ),
        decreases n - row.len(),
    {
        let k: usize = row.len();
        let v: i128 = cross(pivot, target[k], factor, source[k]);
        match narrowed(shrink(v, g)) {
            Some(q) => {
                row.push(q);
            },
            None => {
                return None;
            },
        }
    }
    Some(row)
}

/// The rows after the entry of row `r` in column `c` has been cancelled
/// against row `c`. The pivot row itself and rows that hold a zero there stay
/// as they are; `None` where the new row cannot be stored.
pub open spec fn clear_entry(rows: Seq<Seq<i64>>, c: int, r: int) -> Option<Seq<Seq<i64>>> {
    let pivot = rows[c][c];
    let factor = rows[r][c];
    if r == c || factor == 0 {
        Some(rows)
    } else if !fits(pivot as int) || !fits(factor as int) {
        None
    } else {
        match cancelled(rows[r], rows[c], pivot, factor) {
            Some(row) => Some(rows.update(r, row)),
            None => None,
        }
    }
}

/// The rows after column `c` has been cleared in the rows from `r` on.
pub open spec fn clear_column(rows: Seq<Seq<i64>>, c: int, r: int) -> Option<Seq<Seq<i64>>>
    decreases rows.len() - r,
{
    if r >= rows.len() || r < 0 {
        Some(rows)
    } else {
        match clear_entry(rows, c, r) {
            Some(next) => if next.len() == rows.len() {
                clear_column(next, c, r + 1)
            } else {
                None
            },
            None => None,
        }
    }
}

/// The rows after the columns from `c` on have been cleared one after the
/// other, each against the entry on the diagonal: the diagonal form of the
/// system. `None` where a diagonal entry is zero when its turn comes, or
/// where a row cannot be stored.
pub open spec fn eliminated(rows: Seq<Seq<i64>>, c: int) -> Option<Seq<Seq<i64>>>
    decreases rows.len() - c,
{
    if c >= rows.len() || c < 0 {
        Some(rows)
    } else if rows[c][c] == 0 {
        None
    } else {
        match clear_column(rows, c, 0) {
            Some(next) => if next.len() == rows.len() {
                eliminated(next, c + 1)
            } else {
                None
            },
            None => None,
        }
    }
}

/// Brings the system to diagonal form by integer row operations.
pub fn eliminate(system: Vec<Vec<i64>>, n: usize) -> (res: Option<Vec<Vec<i64>>>)
    requires
        shaped(grid(system@), n as int),
        n < usize::MAX,
    ensures
        res.is_some() == eliminated(grid(system@), 0).is_some(),
        res matches Some(out) ==> eliminated(grid(system@), 0) == Some(grid(out@)) && shaped(
            grid(out@),
            n as int,
        ),
{
    let ghost start = grid(system@);
    let mut rows = system;
    let mut c: usize = 0;
    while c < n
        invariant
            c <= n,
            n < usize::MAX,
            start == grid(system@),
            shaped(grid(rows@), n as int),
            eliminated(grid(rows@), c as int) == eliminated(start, 0),
        decreases n - c,
    {
        assert(grid(rows@)[c as int] == rows@[c as int]@);
        let pivot: i64 = rows[c][c];
        if pivot == 0 {
            assert(eliminated(grid(rows@), c as int) is None);
            return None;
        }
        let ghost column_start = grid(rows@);
        let mut r: usize = 0;
        while r < n
            invariant
                r <= n,
                c < n,
                n < usize::MAX,
                start == grid(system@),
                shaped(grid(rows@), n as int),
                shaped(column_start, n as int),
                pivot == grid(rows@)[c as int][c as int],
                clear_column(grid(rows@), c as int, r as int) == clear_column(
                    column_start,
                    c as int,
                    0,
                ),
                eliminated(column_start, c as int) == eliminated(start, 0),
                column_start[c as int][c as int] != 0,
            decreases n - r,
        {
            let ghost before = grid(rows@);
            assert(before[r as int] == rows@[r as int]@);
            assert(before[c as int] == rows@[c as int]@);
            let factor: i64 = rows[r][c];
            if r != c && factor != 0 {
                if pivot == i64::MIN || factor == i64::MIN {
                    assert(clear_entry(before, c as int, r as int) is None);
                    assert(clear_column(before, c as int, r as int) is None);
                    assert(eliminated(column_start, c as int) is None);
                    return None;
                }
                match cancel_row(&rows[r], &rows[c], pivot, factor) {
                    Some(row) => {
                        rows[r] = row;
                        assert(grid(rows@) =~= before.update(r as int, row@));
                    },
                    None => {
                        assert(clear_entry(before, c as int, r as int) is None);
                        assert(clear_column(before, c as int, r as int) is None);
                        assert(eliminated(column_start, c as int) is None);
                        return None;
                    },
                }
            }
            assert(clear_entry(before, c as int, r as int) == Some(grid(rows@)));
            r = r + 1;
        }
        assert(clear_column(column_start, c as int, 0) == Some(grid(rows@)));
        c = c + 1;
    }
    Some(rows)
}

/// The unknown of row `k` of a diagonal system as a fraction in lowest
/// terms, numerator first: the right-hand side over the diagonal entry,
/// both divided by their greatest common divisor.
pub open spec fn unknown(rows: Seq<Seq<i64>>, k: int) -> Option<(i64, i64)> {
    let a = rows[k][k];
    let b = rows[k][rows.len() as int];
    let g = gcd(magnitude(a as int), magnitude(b as int));
    match (exact_quotient(b, g, false), exact_quotient(a, g, false)) {
        (Some(num), Some(den)) => Some((num, den)),
        _ => None,
    }
}

/// Reads the unknown of row `k` off a diagonal system.
pub fn unknown_of(rows: &Vec<Vec<i64>>, n: usize, k: usize) -> (res: Option<(i64, i64)>)
    requires
        shaped(grid(rows@), n as int),
        k < n,
    ensures
        res == unknown(grid(rows@), k as int),
{
    assert(grid(rows@)[k as int] == rows@[k as int]@);
    let a: i64 = rows[k][k];
    let b: i64 = rows[k][n];
    let g: u128 = gcd_of(magnitude_of(a as i128), magnitude_of(b as i128));
    let num: i64 = match divide_exactly(b, g, false) {
        Some(v) => v,
        None => {
            return None;
        },
    };
    match divide_exactly(a, g, false) {
        Some(den) => Some((num, den)),
        None => None,
    }
}

/// The least common multiple of the magnitudes of `d` and `den`, by way of
/// their greatest common divisor; `None` where that is zero or the multiple
/// cannot be stored.
pub open spec fn joined(d: i64, den: i64) -> Option<i64> {
    let g = gcd(magnitude(d as int), magnitude(den as int));
    if g == 0 {
        None
    } else {
        narrow(((magnitude(d as int) / g) * magnitude(den as int)) as int)
    }
}

/// Computes the least common multiple of the magnitudes of `d` and `den`.
pub fn join(d: i64, den: i64) -> (res: Option<i64>)
    ensures
        res == joined(d, den),
{
    let md: u128 = magnitude_of(d as i128);
    let m: u128 = magnitude_of(den as i128);
    let g: u128 = gcd_of(md, m);
    if g == 0 {
        return None;
    }
    let part: u128 = md / g;
    proof {
        assert(part <= md) by (nonlinear_arith)
            requires
                part == md / g,
                g >= 1,
        ;
        assert(part * m <= 0x8000_0000_0000_0000 * 0x8000_0000_0000_0000) by (nonlinear_arith)
            requires
                part <= 0x8000_0000_0000_0000,
                m <= 0x8000_0000_0000_0000,
        ;
    }
    narrowed((part * m) as i128)
}

/// The least common multiple of `d` and of the denominators of the unknowns
/// from row `from` on; `None` as soon as an unknown cannot be read or a
/// multiple cannot be stored.
pub open spec fn common_denominator_acc(rows: Seq<Seq<i64>>, from: int, d: i64) -> Option<i64>
    decreases rows.len() - from,
{
    if from >= rows.len() || from < 0 {
        Some(d)
    } else {
        match unknown(rows, from) {
            Some((_, den)) => match joined(d, den) {
                Some(v) => common_denominator_acc(rows, from + 1, v),
                None => None,
            },
            None => None,
        }
    }
}

/// The least common denominator of the unknowns of a diagonal system.
pub open spec fn common_denominator(rows: Seq<Seq<i64>>) -> Option<i64> {
    common_denominator_acc(rows, 0, 1)
}

/// Computes the least common denominator of the unknowns.
pub fn common_denominator_of(rows: &Vec<Vec<i64>>, n: usize) -> (res: Option<i64>)
    requires
        shaped(grid(rows@), n as int),
    ensures
        res == common_denominator(grid(rows@)),
{
    let mut d: i64 = 1;
    let mut k: usize = 0;
    while k < n
        invariant
            k <= n,
            shaped(grid(rows@), n as int),
            common_denominator_acc(grid(rows@), k as int, d) == common_denominator(grid(rows@)),
        decreases n - k,
    {
        let den: i64 = match unknown_of(rows, n, k) {
            Some(pair) => pair.1,
            None => {
                return None;
            },
        };
        match join(d, den) {
            Some(v) => {
                d = v;
            },
            None => {
                return None;
            },
        }
        k = k + 1;
    }
    Some(d)
}

/// The numerator of the unknown of row `k` over the denominator `d`: its
/// own numerator times what its own denominator lacks of `d`; `None` where
/// `d` is no multiple of that denominator.
pub open spec fn scaled_numerator(rows: Seq<Seq<i64>>, k: int, d: i64) -> Option<i64> {
    match unknown(rows, k) {
        Some((num, den)) => match exact_quotient(d, magnitude(den as int), den < 0) {
            Some(q) => narrow(num * q),
            None => None,
        },
        None => None,
    }
}

/// The numerators over `d` of the unknowns from `sofar.len()` on, appended
/// to `sofar`.
pub open spec fn numerators_acc(rows: Seq<Seq<i64>>, d: i64, sofar: Seq<i64>) -> Option<Seq<i64>>
    decreases rows.len() - sofar.len(),
{
    if sofar.len() >= rows.len() {
        Some(sofar)
    } else {
        match scaled_numerator(rows, sofar.len() as int, d) {
            Some(v) => numerators_acc(rows, d, sofar.push(v)),
            None => None,
        }
    }
}

/// The numerators of all unknowns of a diagonal system over the
/// denominator `d`.
pub open spec fn numerators(rows: Seq<Seq<i64>>, d: i64) -> Option<Seq<i64>> {
    numerators_acc(rows, d, Seq::empty())
}

/// Reads the unknowns' numerators over `d` off a diagonal system.
pub fn numerators_of(rows: &Vec<Vec<i64>>, n: usize, d: i64) -> (res: Option<Vec<i64>>)
    requires
        shaped(grid(rows@), n as int),
    ensures
        res.is_some() == numerators(grid(rows@), d).is_some(),
        res matches Some(v) ==> numerators(grid(rows@), d) == Some(v@) && v@.len() == n,
{
    let mut found: Vec<i64> = Vec::new();
    while found.len() < n
        invariant
            found@.len() <= n,
            shaped(grid(rows@), n as int),
            numerators_acc(grid(rows@), d, found@) == numerators(grid(rows@), d),
        decreases n - found.len(),
    {
        let k: usize = found.len();
        let (num, den) = match unknown_of(rows, n, k) {
            Some(pair) => pair,
            None => {
                return None;
            },
        };
        let q: i64 = match divide_exactly(d, magnitude_of(den as i128), den < 0) {
            Some(v) => v,
            None => {
                return None;
            },
        };
        match narrowed(wide_mul(num, q)) {
            Some(v) => {
                found.push(v);
            },
            None => {
                return None;
            },
        }
    }
    Some(found)
}

} // verus!
