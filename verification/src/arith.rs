//! Integer helpers for exact arithmetic within 64 bits.

use vstd::prelude::*;

verus! {

/// Largest magnitude that a stored value may have.
pub const LIMIT: i64 = 0x7fff_ffff_ffff_ffff;

/// `v` can be stored: its magnitude is at most `LIMIT`.
pub open spec fn fits(v: int) -> bool {
    -LIMIT <= v <= LIMIT
}

/// `v` as a stored value, where it can be stored.
pub open spec fn narrow(v: int) -> Option<i64> {
    if fits(v) {
        Some(v as i64)
    } else {
        None
    }
}

/// Stores `v` where its magnitude allows.
pub fn narrowed(v: i128) -> (res: Option<i64>)
    ensures
        res == narrow(v as int),
{
    if -(LIMIT as i128) <= v && v <= LIMIT as i128 {
        Some(v as i64)
    } else {
        None
    }
}

/// The product of two stored-size values, which 128 bits always hold.
pub fn wide_mul(a: i64, b: i64) -> (r: i128)
    ensures
        r == a * b,
        -0x4000_0000_0000_0000_0000_0000_0000_0000 <= r <= 0x4000_0000_0000_0000_0000_0000_0000_0000,
{
    proof {
        assert(-0x4000_0000_0000_0000_0000_0000_0000_0000 <= a * b
            <= 0x4000_0000_0000_0000_0000_0000_0000_0000) by (nonlinear_arith)
            requires
                -0x8000_0000_0000_0000 <= a <= 0x8000_0000_0000_0000,
                -0x8000_0000_0000_0000 <= b <= 0x8000_0000_0000_0000,
        ;
    }
    (a as i128) * (b as i128)
}

/// Greatest common divisor by Euclid's algorithm; `gcd(a, 0)` is `a`.
pub open spec fn gcd(a: nat, b: nat) -> nat
    decreases b,
{
    if b == 0 {
        a
    } else {
        gcd(b, a % b)
    }
}

/// Computes `gcd(a, b)`.
pub fn gcd_of(a: u128, b: u128) -> (g: u128)
    ensures
        g == gcd(a as nat, b as nat),
{
    let mut x: u128 = a;
    let mut y: u128 = b;
    while y != 0
        invariant
            gcd(x as nat, y as nat) == gcd(a as nat, b as nat),
        decreases y,
    {
        let r: u128 = x % y;
        x = y;
        y = r;
    }
    x
}

/// Magnitude of `v`.
pub open spec fn magnitude(v: int) -> nat {
    if v < 0 {
        (-v) as nat
    } else {
        v as nat
    }
}

/// Computes the magnitude of `v`.
pub fn magnitude_of(v: i128) -> (m: u128)
    requires
        v > i128::MIN,
    ensures
        m == magnitude(v as int),
{
    if v < 0 {
        (-v) as u128
    } else {
        v as u128
    }
}

/// `v` divided by `g` towards zero; a `g` of zero or one leaves `v` as it is.
pub open spec fn shrunk(v: int, g: nat) -> int {
    if g <= 1 {
        v
    } else if v < 0 {
        -((magnitude(v) / g) as int)
    } else {
        v / (g as int)
    }
}

/// Divides `v` by `g` towards zero.
pub fn shrink(v: i128, g: u128) -> (q: i128)
    requires
        v > i128::MIN,
    ensures
        q == shrunk(v as int, g as nat),
{
    if g <= 1 {
        v
    } else if v < 0 {
        let m: u128 = magnitude_of(v);
        let d: u128 = m / g;
        -(d as i128)
    } else {
        let m: u128 = v as u128;
        let d: u128 = m / g;
        d as i128
    }
}

/// `v` or, where `flip` is set, `-v`.
pub open spec fn signed(v: int, flip: bool) -> int {
    if flip {
        -v
    } else {
        v
    }
}

/// `v` divided by `g`, with its sign turned where `flip` is set; `None`
/// where `g` is zero or does not divide `v`.
pub open spec fn exact_quotient(v: i64, g: nat, flip: bool) -> Option<i64> {
    if g == 0 || magnitude(v as int) % g != 0 {
        None
    } else {
        narrow(signed(shrunk(v as int, g), flip))
    }
}

/// An exact quotient times its divisor is the dividend again.
pub proof fn lemma_exact_quotient(v: i64, g: nat, flip: bool)
    ensures
        exact_quotient(v, g, flip) matches Some(q) ==> q * g == signed(v as int, flip),
{
    if let Some(q) = exact_quotient(v, g, flip) {
        let m = magnitude(v as int);
        vstd::arithmetic::div_mod::lemma_fundamental_div_mod(m as int, g as int);
        assert(m == g * (m / g));
        let s = shrunk(v as int, g);
        assert(s * g == v) by (nonlinear_arith)
            requires
                g >= 1,
                m == g * (m / g),
                m == magnitude(v as int),
                s == shrunk(v as int, g),
        ;
        assert(q * g == signed(v as int, flip)) by (nonlinear_arith)
            requires
                s * g == v,
                q == signed(s, flip),
        ;
    }
}

/// Divides `v` by `g` where that leaves no remainder.
pub fn divide_exactly(v: i64, g: u128, flip: bool) -> (res: Option<i64>)
    ensures
        res == exact_quotient(v, g as nat, flip),
        res matches Some(q) ==> q * g == signed(v as int, flip),
{
    proof {
        lemma_exact_quotient(v, g as nat, flip);
    }
    if g == 0 {
        return None;
    }
    let m: u128 = magnitude_of(v as i128);
    if m % g != 0 {
        return None;
    }
    let q: i128 = shrink(v as i128, g);
    if flip {
        narrowed(-q)
    } else {
        narrowed(q)
    }
}

} // verus!
