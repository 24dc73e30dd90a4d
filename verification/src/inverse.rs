//! Modular reduction, inversion and multiplication on `i64` values.

use vstd::prelude::*;
use crate::euclid::extended_gcd;
use crate::euclid::gcd;
use crate::euclid::mag;

verus! {

/// The canonical representative of `a` modulo `m`: the unique `r` with
/// `0 <= r < m` and `r` congruent to `a`. Spec-level `%` is already
/// Euclidean, so the representative is simply `a % m`.
pub fn mod_floor(a: i64, m: i64) -> (r: i64)
    requires
        m > 0,
    ensures
        0 <= r < m,
        r as int == (a as int) % (m as int),
{
    let wide: i128 = (a as i128) % (m as i128);
    proof {
        vstd::arithmetic::div_mod::lemma_mod_bound(-(a as int), m as int);
        vstd::arithmetic::div_mod::lemma_mod_bound(a as int, m as int);
    }
    if wide < 0 {
        proof {
            lemma_truncated_to_euclidean(a as int, m as int);
        }
        (wide + (m as i128)) as i64
    } else {
        proof {
            if a < 0 {
                lemma_truncated_to_euclidean(a as int, m as int);
            }
        }
        wide as i64
    }
}

/// Relates Rust's truncating remainder of a negative dividend to the
/// Euclidean remainder: for `a < 0`, the truncated remainder is
/// `-((-a) % m)`, which is either `0` (when `m` divides `a`) or
/// `a % m - m`.
proof fn lemma_truncated_to_euclidean(a: int, m: int)
    requires
        m > 0,
        a < 0,
    ensures
        (-a) % m == 0 ==> a % m == 0,
        (-a) % m != 0 ==> a % m == m - (-a) % m,
{
    let q = (-a) / m;
    let r = (-a) % m;
    vstd::arithmetic::div_mod::lemma_fundamental_div_mod(-a, m);
    vstd::arithmetic::div_mod::lemma_mod_bound(-a, m);
    assert(a == m * (-q) - r) by (nonlinear_arith)
        requires
            -a == m * q + r,
    ;
    if r == 0 {
        vstd::arithmetic::div_mod::lemma_fundamental_div_mod_converse(a, m, -q, 0);
    } else {
        assert(a == m * (-q - 1) + (m - r)) by (nonlinear_arith)
            requires
                a == m * (-q) - r,
        ;
        vstd::arithmetic::div_mod::lemma_fundamental_div_mod_converse(a, m, -q - 1, m - r);
    }
}

/// The multiplicative inverse of `a` modulo `m`, when it exists.
///
/// Returns the unique `r` with `0 <= r < m` and `a*r` congruent to `1`
/// modulo `m`; the inverse exists exactly when `gcd(|a|, m) == 1`, and
/// `None` is returned otherwise. The raw Bezout coefficient may be
/// negative, so it is canonicalized before being returned.
pub fn mod_inv(a: i64, m: i64) -> (res: Option<i64>)
    requires
        m > 0,
        a > i64::MIN,
    ensures
        res.is_some() <==> gcd(mag(a as int), m as nat) == 1,
        res matches Some(r) ==> 0 <= r < m && (a as int * r as int) % (m as int) == 1int % (
        m as int),
{
    let (g, x, y) = extended_gcd(a, m);
    if g == 1 {
        let r = mod_floor(x, m);
        proof {
            vstd::arithmetic::div_mod::lemma_mul_mod_noop_right(a as int, x as int, m as int);
            vstd::arithmetic::div_mod::lemma_mod_multiples_vanish(-(y as int), 1, m as int);
            assert(a as int * x as int == m as int * (-(y as int)) + 1) by (nonlinear_arith)
                requires
                    a as int * x as int + m as int * y as int == 1,
            ;
        }
        Some(r)
    } else {
        None
    }
}

/// Absence of an inverse is genuine: when `gcd(|a|, m)` is not `1`, no
/// integer at all multiplies with `a` to something congruent to `1`
/// modulo `m`, so `mod_inv` returning `None` never hides an answer.
pub proof fn lemma_no_inverse_when_gcd_not_one(a: int, m: int, r: int)
    requires
        m > 0,
        gcd(mag(a), m as nat) != 1,
    ensures
        (a * r) % m != 1int % m,
{
    let g = gcd(mag(a), m as nat);
    crate::euclid::lemma_gcd_divides(mag(a), m as nat);
    assert(g > 0);
    assert(g != 1);
    if m == 1 {
        // gcd(x, 1) recurses to gcd(1, 0) == 1, contradicting g != 1.
        assert(gcd(mag(a), 1) == gcd(1, mag(a) % 1));
        vstd::arithmetic::div_mod::lemma_mod_bound(mag(a) as int, 1);
        assert(gcd(1, 0) == 1);
        assert(false);
    }
    if (a * r) % m == 1int % m {
        vstd::arithmetic::div_mod::lemma_small_mod(1, m as nat);
        let q = (a * r) / m;
        vstd::arithmetic::div_mod::lemma_fundamental_div_mod(a * r, m);
        assert(a * r == m * q + 1);
        let ka = mag(a) as int / g as int;
        let km = m / g as int;
        vstd::arithmetic::div_mod::lemma_fundamental_div_mod(mag(a) as int, g as int);
        vstd::arithmetic::div_mod::lemma_fundamental_div_mod(m, g as int);
        assert(mag(a) as int == g as int * ka);
        assert(m == g as int * km);
        let k = if a >= 0 {
            ka * r - km * q
        } else {
            (-ka) * r - km * q
        };
        if a >= 0 {
            assert(1 == g as int * k) by (nonlinear_arith)
                requires
                    a * r == m * q + 1,
                    a == g as int * ka,
                    m == g as int * km,
                    k == ka * r - km * q,
            ;
        } else {
            assert(1 == g as int * k) by (nonlinear_arith)
                requires
                    a * r == m * q + 1,
                    -a == g as int * ka,
                    m == g as int * km,
                    k == (-ka) * r - km * q,
            ;
        }
        assert(false) by (nonlinear_arith)
            requires
                g as int >= 2,
                1int == g as int * k,
        ;
    }
}

/// The inverse is unique among canonical representatives: two values in
/// `[0, m)` that both multiply with `a` to something congruent to `1`
/// are equal.
pub proof fn lemma_inverse_unique(a: int, m: int, r1: int, r2: int)
    requires
        m > 0,
        0 <= r1 < m,
        0 <= r2 < m,
        (a * r1) % m == 1int % m,
        (a * r2) % m == 1int % m,
    ensures
        r1 == r2,
{
    if m == 1 {
        // Both lie in [0, 1).
    } else {
        vstd::arithmetic::div_mod::lemma_small_mod(1, m as nat);
        assert(r1 * (a * r2) == (a * r1) * r2 && r2 * (a * r1) == (a * r2) * r1)
            by (nonlinear_arith);
        vstd::arithmetic::div_mod::lemma_mul_mod_noop_right(r1, a * r2, m);
        vstd::arithmetic::div_mod::lemma_mul_mod_noop_left(a * r1, r2, m);
        vstd::arithmetic::div_mod::lemma_small_mod(r1 as nat, m as nat);
        vstd::arithmetic::div_mod::lemma_small_mod(r2 as nat, m as nat);
        assert((r1 * ((a * r2) % m)) % m == (r1 * (a * r2)) % m);
        assert((r1 * 1) % m == r1 % m);
        assert((((a * r1) % m) * r2) % m == ((a * r1) * r2) % m);
        assert((1 * r2) % m == r2 % m);
    }
}

/// `(a * b) mod m`, canonical in `[0, m)`.
///
/// The operands are reduced first and the product is formed in a widened
/// 128-bit intermediate, so the computation never overflows; by the
/// mod-noop laws the result equals both `(a*b) mod m` and
/// `((a mod m) * (b mod m)) mod m`.
pub fn mod_mult(a: i64, b: i64, m: i64) -> (r: i64)
    requires
        m > 0,
    ensures
        0 <= r < m,
        r as int == (a as int * b as int) % (m as int),
        r as int == ((a as int % (m as int)) * (b as int % (m as int))) % (m as int),
{
    let av = mod_floor(a, m);
    let bv = mod_floor(b, m);
    proof {
        assert(av as int * bv as int <= i64::MAX as int * i64::MAX as int && av as int
            * bv as int >= 0) by (nonlinear_arith)
            requires
                0 <= av as int <= i64::MAX as int,
                0 <= bv as int <= i64::MAX as int,
        ;
    }
    let p: u128 = (av as u128) * (bv as u128);
    let rm: u128 = p % (m as u128);
    proof {
        vstd::arithmetic::div_mod::lemma_mod_bound(p as int, m as int);
        vstd::arithmetic::div_mod::lemma_mul_mod_noop_general(a as int, b as int, m as int);
    }
    rm as i64
}

} // verus!
