//! The residue-class value type: a value paired with a positive modulus,
//! kept in canonical form `0 <= value < modulus`.
//!
//! Every operator consumes canonical residues of one shared modulus and
//! produces a freshly canonicalized residue of that modulus; values are
//! immutable once built. Requiring equal moduli on the binary operators is
//! a caller contract, not a recoverable runtime case.

use vstd::prelude::*;
use crate::euclid::gcd;
use crate::inverse::mod_floor;
use crate::inverse::mod_inv;
use crate::inverse::mod_mult;

verus! {

/// A residue class modulo `modulus`, represented by its canonical member.
#[derive(Clone, Copy, Debug, PartialEq, Eq, Structural)]
pub struct Mod {
    value: i64,
    modulus: i64,
}

impl Mod {
    /// The canonical representative carried by this residue.
    pub closed spec fn spec_value(self) -> int {
        self.value as int
    }

    /// The modulus of this residue class.
    pub closed spec fn spec_modulus(self) -> int {
        self.modulus as int
    }

    /// The residue invariant: the modulus is positive and the value is the
    /// canonical member of its class.
    pub open spec fn wf(self) -> bool {
        0 < self.spec_modulus() && 0 <= self.spec_value() < self.spec_modulus()
    }

    /// The residue class of `v` modulo `m`: `v` reduced into `[0, m)`.
    pub closed spec fn spec_new(v: int, m: int) -> Mod {
        Mod { value: (v % m) as i64, modulus: m as i64 }
    }

    /// The sum of two residue classes sharing a modulus.
    pub open spec fn spec_add(x: Mod, y: Mod) -> Mod {
        Mod::spec_new(x.spec_value() + y.spec_value(), x.spec_modulus())
    }

    /// The difference of two residue classes sharing a modulus.
    pub open spec fn spec_sub(x: Mod, y: Mod) -> Mod {
        Mod::spec_new(x.spec_value() - y.spec_value(), x.spec_modulus())
    }

    /// The product of two residue classes sharing a modulus.
    pub open spec fn spec_mul(x: Mod, y: Mod) -> Mod {
        Mod::spec_new(x.spec_value() * y.spec_value(), x.spec_modulus())
    }

    /// The additive inverse of a residue class.
    pub open spec fn spec_neg(x: Mod) -> Mod {
        Mod::spec_new(-x.spec_value(), x.spec_modulus())
    }

    /// The additive identity modulo `m`.
    pub open spec fn spec_zero(m: int) -> Mod {
        Mod::spec_new(0, m)
    }

    /// The multiplicative identity modulo `m`.
    pub open spec fn spec_one(m: int) -> Mod {
        Mod::spec_new(1, m)
    }

    /// Construct the residue class of `value` modulo `modulus`,
    /// canonicalizing `value` into `[0, modulus)`. Supplying a non-positive
    /// modulus is a caller error, excluded by contract.
    pub fn new(value: i64, modulus: i64) -> (r: Mod)
        requires
            modulus > 0,
        ensures
            r.wf(),
            r.spec_modulus() == modulus as int,
            r.spec_value() == (value as int) % (modulus as int),
            r == Mod::spec_new(value as int, modulus as int),
    {
        Mod { value: mod_floor(value, modulus), modulus }
    }

    /// The canonical representative, unwrapped.
    pub fn un_mod(&self) -> (r: i64)
        ensures
            r as int == self.spec_value(),
    {
        self.value
    }

    /// The additive identity residue `0 mod modulus`.
    pub fn zero(modulus: i64) -> (r: Mod)
        requires
            modulus > 0,
        ensures
            r.wf(),
            r.spec_modulus() == modulus as int,
            r.spec_value() == 0,
            r == Mod::spec_zero(modulus as int),
    {
        Mod::new(0, modulus)
    }

    /// The multiplicative identity residue `1 mod modulus` (which is
    /// `0` when the modulus is `1`).
    pub fn one(modulus: i64) -> (r: Mod)
        requires
            modulus > 0,
        ensures
            r.wf(),
            r.spec_modulus() == modulus as int,
            r.spec_value() == 1int % (modulus as int),
            r == Mod::spec_one(modulus as int),
    {
        Mod::new(1, modulus)
    }

    /// The sum of two residues of one modulus, canonicalized.
    pub fn add(&self, rhs: &Mod) -> (r: Mod)
        requires
            self.wf(),
            rhs.wf(),
            self.spec_modulus() == rhs.spec_modulus(),
        ensures
            r.wf(),
            r.spec_modulus() == self.spec_modulus(),
            r.spec_value() == (self.spec_value() + rhs.spec_value()) % self.spec_modulus(),
            r == Mod::spec_add(*self, *rhs),
    {
        let m: i128 = self.modulus as i128;
        let sum: i128 = self.value as i128 + rhs.value as i128;
        let v: i128 = if sum >= m {
            proof {
                vstd::arithmetic::div_mod::lemma_mod_sub_multiples_vanish(
                    sum as int,
                    m as int,
                );
                vstd::arithmetic::div_mod::lemma_small_mod((sum - m) as nat, m as nat);
            }
            sum - m
        } else {
            proof {
                vstd::arithmetic::div_mod::lemma_small_mod(sum as nat, m as nat);
            }
            sum
        };
        Mod { value: v as i64, modulus: self.modulus }
    }

    /// The difference of two residues of one modulus, canonicalized.
    pub fn sub(&self, rhs: &Mod) -> (r: Mod)
        requires
            self.wf(),
            rhs.wf(),
            self.spec_modulus() == rhs.spec_modulus(),
        ensures
            r.wf(),
            r.spec_modulus() == self.spec_modulus(),
            r.spec_value() == (self.spec_value() - rhs.spec_value()) % self.spec_modulus(),
            r == Mod::spec_sub(*self, *rhs),
    {
        let diff: i64 = self.value - rhs.value;
        let v: i64 = if diff < 0 {
            proof {
                vstd::arithmetic::div_mod::lemma_mod_add_multiples_vanish(
                    diff as int,
                    self.modulus as int,
                );
                vstd::arithmetic::div_mod::lemma_small_mod(
                    (diff + self.modulus) as nat,
                    self.modulus as nat,
                );
            }
            diff + self.modulus
        } else {
            proof {
                vstd::arithmetic::div_mod::lemma_small_mod(diff as nat, self.modulus as nat);
            }
            diff
        };
        Mod { value: v, modulus: self.modulus }
    }

    /// The product of two residues of one modulus, through the widening
    /// modular-multiplication primitive.
    pub fn mul(&self, rhs: &Mod) -> (r: Mod)
        requires
            self.wf(),
            rhs.wf(),
            self.spec_modulus() == rhs.spec_modulus(),
        ensures
            r.wf(),
            r.spec_modulus() == self.spec_modulus(),
            r.spec_value() == (self.spec_value() * rhs.spec_value()) % self.spec_modulus(),
            r == Mod::spec_mul(*self, *rhs),
    {
        let v: i64 = mod_mult(self.value, rhs.value, self.modulus);
        Mod { value: v, modulus: self.modulus }
    }

    /// The additive inverse of a residue, canonicalized.
    pub fn neg(&self) -> (r: Mod)
        requires
            self.wf(),
        ensures
            r.wf(),
            r.spec_modulus() == self.spec_modulus(),
            r.spec_value() == (-self.spec_value()) % self.spec_modulus(),
            r == Mod::spec_neg(*self),
    {
        let v: i64 = mod_floor(-self.value, self.modulus);
        Mod { value: v, modulus: self.modulus }
    }

    /// The multiplicative inverse of a residue, when one exists: the
    /// residue `i` of the same modulus with `self * i` congruent to `1`.
    /// Absence (`None`) is the legitimate outcome whenever the value and
    /// the modulus share a factor.
    pub fn inv(&self) -> (res: Option<Mod>)
        requires
            self.wf(),
        ensures
            res.is_some() <==> gcd(self.spec_value() as nat, self.spec_modulus() as nat) == 1,
            res matches Some(i) ==> i.wf() && i.spec_modulus() == self.spec_modulus() && (
            self.spec_value() * i.spec_value()) % self.spec_modulus() == 1int
                % self.spec_modulus(),
    {
        match mod_inv(self.value, self.modulus) {
            Some(v) => Some(Mod { value: v, modulus: self.modulus }),
            None => None,
        }
    }

    /// Whether this residue has a multiplicative inverse, i.e. whether its
    /// value is coprime to the modulus.
    pub fn has_inv(&self) -> (r: bool)
        requires
            self.wf(),
        ensures
            r <==> gcd(self.spec_value() as nat, self.spec_modulus() as nat) == 1,
    {
        self.inv().is_some()
    }
}

/// Addition of residue classes is associative.
pub proof fn lemma_add_associative(x: Mod, y: Mod, z: Mod)
    requires
        x.wf(),
        y.wf(),
        z.wf(),
        x.spec_modulus() == y.spec_modulus(),
        y.spec_modulus() == z.spec_modulus(),
    ensures
        Mod::spec_add(x, Mod::spec_add(y, z)) == Mod::spec_add(Mod::spec_add(x, y), z),
{
    let m = x.spec_modulus();
    let a = x.spec_value();
    let b = y.spec_value();
    let c = z.spec_value();
    vstd::arithmetic::div_mod::lemma_mod_bound(b + c, m);
    vstd::arithmetic::div_mod::lemma_mod_bound(a + b, m);
    vstd::arithmetic::div_mod::lemma_add_mod_noop_right(a, b + c, m);
    vstd::arithmetic::div_mod::lemma_add_mod_noop(a + b, c, m);
    vstd::arithmetic::div_mod::lemma_mod_bound(a + b + c, m);
    assert(((a + b) % m + c % m) % m == ((a + b) % m + c) % m) by {
        vstd::arithmetic::div_mod::lemma_small_mod(c as nat, m as nat);
    }
}

/// The zero residue is the additive identity.
pub proof fn lemma_add_identity(x: Mod)
    requires
        x.wf(),
    ensures
        Mod::spec_add(x, Mod::spec_zero(x.spec_modulus())) == x,
{
    let m = x.spec_modulus();
    let a = x.spec_value();
    vstd::arithmetic::div_mod::lemma_small_mod(0, m as nat);
    vstd::arithmetic::div_mod::lemma_small_mod(a as nat, m as nat);
}

/// Adding the additive inverse of a residue yields the zero residue.
pub proof fn lemma_add_inverse(x: Mod)
    requires
        x.wf(),
    ensures
        Mod::spec_add(x, Mod::spec_neg(x)) == Mod::spec_zero(x.spec_modulus()),
{
    let m = x.spec_modulus();
    let a = x.spec_value();
    vstd::arithmetic::div_mod::lemma_mod_bound(-a, m);
    vstd::arithmetic::div_mod::lemma_add_mod_noop_right(a, -a, m);
    vstd::arithmetic::div_mod::lemma_small_mod(0, m as nat);
}

/// Multiplying a residue by its multiplicative inverse yields the one
/// residue: the round trip promised by `Mod::inv`.
pub proof fn lemma_inverse_round_trip(x: Mod, i: Mod)
    requires
        x.wf(),
        i.wf(),
        i.spec_modulus() == x.spec_modulus(),
        (x.spec_value() * i.spec_value()) % x.spec_modulus() == 1int % x.spec_modulus(),
    ensures
        Mod::spec_mul(x, i) == Mod::spec_one(x.spec_modulus()),
{
    let m = x.spec_modulus();
    vstd::arithmetic::div_mod::lemma_mod_bound(1int, m);
    vstd::arithmetic::div_mod::lemma_mod_bound(x.spec_value() * i.spec_value(), m);
}

} // verus!
