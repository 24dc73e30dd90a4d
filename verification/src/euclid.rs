//! The extended Euclidean algorithm: `gcd(a, b)` together with Bezout
//! coefficients `(x, y)` satisfying `a*x + b*y == gcd(a, b)`.

use vstd::prelude::*;

verus! {

/// The greatest common divisor of two natural numbers, by Euclid's recursion.
/// `gcd(a, 0) == a`, so in particular `gcd(0, 0) == 0`.
pub open spec fn gcd(a: nat, b: nat) -> nat
    decreases b,
{
    if b == 0 {
        a
    } else {
        gcd(b, a % b)
    }
}

/// The magnitude of an integer, as a natural number.
pub open spec fn mag(x: int) -> nat {
    if x < 0 {
        (-x) as nat
    } else {
        x as nat
    }
}

/// `gcd` earns its name, first half: it is zero only on `(0, 0)`, and it
/// divides both of its arguments.
pub proof fn lemma_gcd_divides(a: nat, b: nat)
    ensures
        gcd(a, b) == 0 ==> a == 0 && b == 0,
        gcd(a, b) > 0 ==> a % gcd(a, b) == 0,
        gcd(a, b) > 0 ==> b % gcd(a, b) == 0,
    decreases b,
{
    let g = gcd(a, b);
    if b == 0 {
        if a > 0 {
            vstd::arithmetic::div_mod::lemma_mod_self_0(a as int);
            vstd::arithmetic::div_mod::lemma_small_mod(0, a);
        }
    } else {
        lemma_gcd_divides(b, a % b);
        if g > 0 {
            let q = a as int / b as int;
            let r = a as int % b as int;
            vstd::arithmetic::div_mod::lemma_fundamental_div_mod(a as int, b as int);
            let kb = b as int / g as int;
            let kr = r / g as int;
            vstd::arithmetic::div_mod::lemma_fundamental_div_mod(b as int, g as int);
            vstd::arithmetic::div_mod::lemma_fundamental_div_mod(r, g as int);
            assert(a as int == g as int * (kb * q + kr)) by (nonlinear_arith)
                requires
                    a as int == b as int * q + r,
                    b as int == g as int * kb,
                    r == g as int * kr,
            ;
            vstd::arithmetic::div_mod::lemma_mod_multiples_vanish(kb * q + kr, 0, g as int);
            vstd::arithmetic::div_mod::lemma_small_mod(0, g);
        }
    }
}

/// `gcd` earns its name, second half: every common divisor of the two
/// arguments divides their `gcd`, so none exceeds it.
pub proof fn lemma_gcd_greatest(a: nat, b: nat, d: nat)
    requires
        d > 0,
        a % d == 0,
        b % d == 0,
    ensures
        gcd(a, b) % d == 0,
    decreases b,
{
    if b != 0 {
        let q = a as int / b as int;
        let r = a as int % b as int;
        vstd::arithmetic::div_mod::lemma_fundamental_div_mod(a as int, b as int);
        let ka = a as int / d as int;
        let kb = b as int / d as int;
        vstd::arithmetic::div_mod::lemma_fundamental_div_mod(a as int, d as int);
        vstd::arithmetic::div_mod::lemma_fundamental_div_mod(b as int, d as int);
        assert(r == d as int * (ka - kb * q)) by (nonlinear_arith)
            requires
                a as int == b as int * q + r,
                a as int == d as int * ka,
                b as int == d as int * kb,
        ;
        vstd::arithmetic::div_mod::lemma_mod_multiples_vanish(ka - kb * q, 0, d as int);
        vstd::arithmetic::div_mod::lemma_small_mod(0, d);
        lemma_gcd_greatest(b, (a % b) as nat, d);
    }
}

/// One update of a Bezout coefficient column: the pair `(os, ss)` becomes
/// `(ss, os - q*ss)`. The two entries alternate in sign, and the mixed sum
/// `orr*|ss| + rr*|os|` is conserved, which bounds every coefficient the
/// loop ever holds.
proof fn lemma_coeff_step(cap: int, orr: int, rr: int, q: int, nr: int, os: int, ss: int, ns: int)
    requires
        rr >= 1,
        q >= 0,
        0 <= nr,
        nr == orr - q * rr,
        ns == os - q * ss,
        os * ss <= 0,
        orr * mag(ss) + rr * mag(os) == cap,
    ensures
        rr * mag(ns) + nr * mag(ss) == cap,
        ss * ns <= 0,
        mag(ns) <= cap || mag(ns) <= 1,
{
    if os <= 0 && ss >= 0 {
        assert(q * ss >= 0) by (nonlinear_arith)
            requires
                q >= 0,
                ss >= 0,
        ;
        assert(ns <= 0);
        assert(rr * mag(ns) + nr * mag(ss) == cap) by (nonlinear_arith)
            requires
                mag(ns) == -ns,
                mag(ss) == ss,
                mag(os) == -os,
                ns == os - q * ss,
                nr == orr - q * rr,
                orr * mag(ss) + rr * mag(os) == cap,
        ;
        assert(ss * ns <= 0) by (nonlinear_arith)
            requires
                ss >= 0,
                ns <= 0,
        ;
    } else {
        assert(os >= 0 && ss <= 0) by (nonlinear_arith)
            requires
                os * ss <= 0,
                !(os <= 0 && ss >= 0),
        ;
        assert(q * ss <= 0) by (nonlinear_arith)
            requires
                q >= 0,
                ss <= 0,
        ;
        assert(ns >= 0);
        assert(rr * mag(ns) + nr * mag(ss) == cap) by (nonlinear_arith)
            requires
                mag(ns) == ns,
                mag(ss) == -ss,
                mag(os) == os,
                ns == os - q * ss,
                nr == orr - q * rr,
                orr * mag(ss) + rr * mag(os) == cap,
        ;
        assert(ss * ns <= 0) by (nonlinear_arith)
            requires
                ss <= 0,
                ns >= 0,
        ;
    }
    assert(nr * mag(ss) >= 0) by (nonlinear_arith)
        requires
            nr >= 0,
            mag(ss) >= 0,
    ;
    assert(rr * mag(ns) >= mag(ns)) by (nonlinear_arith)
        requires
            rr >= 1,
            mag(ns) >= 0,
    ;
}

/// Both Bezout identities survive one division step of the loop.
proof fn lemma_identity_step(
    va: int,
    vb: int,
    orr: int,
    rr: int,
    q: int,
    nr: int,
    os: int,
    ss: int,
    ns: int,
    ot: int,
    tt: int,
    nt: int,
)
    requires
        va * os + vb * ot == orr,
        va * ss + vb * tt == rr,
        nr == orr - q * rr,
        ns == os - q * ss,
        nt == ot - q * tt,
    ensures
        va * ns + vb * nt == nr,
{
    assert(va * ns + vb * nt == nr) by (nonlinear_arith)
        requires
            va * os + vb * ot == orr,
            va * ss + vb * tt == rr,
            nr == orr - q * rr,
            ns == os - q * ss,
            nt == ot - q * tt,
    ;
}

/// Extended Euclidean algorithm. Returns `(g, x, y)` where `g` is the
/// (non-negative) greatest common divisor of `|a|` and `|b|` and the
/// coefficients satisfy Bezout's identity `a*x + b*y == g` exactly.
///
/// The coefficient columns are carried in 128-bit accumulators so that no
/// intermediate step can wrap; the conserved quantity of
/// `lemma_coeff_step` shows that the results fit back into `i64`.
pub fn extended_gcd(a: i64, b: i64) -> (res: (i64, i64, i64))
    requires
        a > i64::MIN,
        b > i64::MIN,
    ensures
        res.0 as nat == gcd(mag(a as int), mag(b as int)),
        a as int * res.1 as int + b as int * res.2 as int == res.0 as int,
        res.0 >= 0,
{
    let va: u64 = if a < 0 {
        (-a) as u64
    } else {
        a as u64
    };
    let vb: u64 = if b < 0 {
        (-b) as u64
    } else {
        b as u64
    };
    let mut old_r: u64 = va;
    let mut r: u64 = vb;
    let mut old_s: i128 = 1;
    let mut s: i128 = 0;
    let mut old_t: i128 = 0;
    let mut t: i128 = 1;
    while r != 0
        invariant
            va <= i64::MAX,
            vb <= i64::MAX,
            old_r <= i64::MAX,
            r <= i64::MAX,
            va as int * old_s + vb as int * old_t == old_r as int,
            va as int * s + vb as int * t == r as int,
            gcd(old_r as nat, r as nat) == gcd(va as nat, vb as nat),
            old_s * s <= 0,
            old_t * t <= 0,
            old_r as int * mag(s as int) + r as int * mag(old_s as int) == vb as int,
            old_r as int * mag(t as int) + r as int * mag(old_t as int) == va as int,
            mag(old_s as int) <= vb as int || mag(old_s as int) <= 1,
            mag(s as int) <= vb as int || mag(s as int) <= 1,
            mag(old_t as int) <= va as int || mag(old_t as int) <= 1,
            mag(t as int) <= va as int || mag(t as int) <= 1,
        decreases r,
    {
        let q: u64 = old_r / r;
        let new_r: u64 = old_r % r;
        proof {
            vstd::arithmetic::div_mod::lemma_fundamental_div_mod(old_r as int, r as int);
            assert(q as int * r as int == r as int * q as int) by (nonlinear_arith);
            assert(q as int <= old_r as int) by (nonlinear_arith)
                requires
                    r as int >= 1,
                    q as int >= 0,
                    old_r as int == r as int * q as int + new_r as int,
                    new_r as int >= 0,
            ;
            assert(q as int * s as int <= i64::MAX as int * i64::MAX as int
                && q as int * s as int >= -(i64::MAX as int * i64::MAX as int)) by (nonlinear_arith)
                requires
                    0 <= q as int <= i64::MAX as int,
                    -(i64::MAX as int) <= s as int <= i64::MAX as int,
            ;
            assert(q as int * t as int <= i64::MAX as int * i64::MAX as int
                && q as int * t as int >= -(i64::MAX as int * i64::MAX as int)) by (nonlinear_arith)
                requires
                    0 <= q as int <= i64::MAX as int,
                    -(i64::MAX as int) <= t as int <= i64::MAX as int,
            ;
        }
        let qi: i128 = q as i128;
        let new_s: i128 = old_s - qi * s;
        let new_t: i128 = old_t - qi * t;
        proof {
            lemma_identity_step(
                va as int,
                vb as int,
                old_r as int,
                r as int,
                q as int,
                new_r as int,
                old_s as int,
                s as int,
                new_s as int,
                old_t as int,
                t as int,
                new_t as int,
            );
            lemma_coeff_step(
                vb as int,
                old_r as int,
                r as int,
                q as int,
                new_r as int,
                old_s as int,
                s as int,
                new_s as int,
            );
            lemma_coeff_step(
                va as int,
                old_r as int,
                r as int,
                q as int,
                new_r as int,
                old_t as int,
                t as int,
                new_t as int,
            );
            assert(gcd(old_r as nat, r as nat) == gcd(r as nat, new_r as nat));
        }
        old_r = r;
        r = new_r;
        old_s = s;
        s = new_s;
        old_t = t;
        t = new_t;
    }
    let g: i64 = old_r as i64;
    let x_abs: i64 = old_s as i64;
    let y_abs: i64 = old_t as i64;
    let x: i64 = if a < 0 {
        -x_abs
    } else {
        x_abs
    };
    let y: i64 = if b < 0 {
        -y_abs
    } else {
        y_abs
    };
    proof {
        assert(gcd(old_r as nat, 0) == old_r as nat);
        assert(a as int * x as int == va as int * old_s as int) by (nonlinear_arith)
            requires
                (a as int == -(va as int) && x as int == -(old_s as int)) || (a as int == va as int
                    && x as int == old_s as int),
        ;
        assert(b as int * y as int == vb as int * old_t as int) by (nonlinear_arith)
            requires
                (b as int == -(vb as int) && y as int == -(old_t as int)) || (b as int == vb as int
                    && y as int == old_t as int),
        ;
    }
    (g, x, y)
}

} // verus!
