//! Tests of the residue-class value type.

use modular::Mod;

fn canonical(x: &Mod, modulus: i64) -> bool {
    let v = x.un_mod();
    0 <= v && v < modulus
}

#[test]
fn test_new_canonicalizes() {
    assert_eq!(Mod::new(13, 5).un_mod(), 3);
    assert_eq!(Mod::new(-4, 7).un_mod(), 3);
    assert_eq!(Mod::new(-7, 7).un_mod(), 0);
    assert_eq!(Mod::new(0, 1).un_mod(), 0);
    assert_eq!(Mod::new(i64::MIN, 3).un_mod(), 1);
    assert_eq!(Mod::new(i64::MAX, i64::MAX).un_mod(), 0);
}

#[test]
fn test_zero_and_one() {
    assert_eq!(Mod::zero(7).un_mod(), 0);
    assert_eq!(Mod::one(7).un_mod(), 1);
    // Modulo 1 every value collapses to zero.
    assert_eq!(Mod::one(1).un_mod(), 0);
}

#[test]
fn test_add_sub_neg_values() {
    let x = Mod::new(5, 7);
    let y = Mod::new(4, 7);
    assert_eq!(x.add(&y).un_mod(), 2);
    assert_eq!(x.sub(&y).un_mod(), 1);
    assert_eq!(y.sub(&x).un_mod(), 6);
    assert_eq!(x.neg().un_mod(), 2);
    assert_eq!(Mod::zero(7).neg().un_mod(), 0);
}

#[test]
fn test_mul_values() {
    let x = Mod::new(5, 7);
    let y = Mod::new(4, 7);
    assert_eq!(x.mul(&y).un_mod(), 6);
    let big = Mod::new(i64::MAX - 2, i64::MAX);
    assert_eq!(big.mul(&big).un_mod(), 4);
}

#[test]
fn test_every_operation_stays_canonical() {
    let m = 11;
    let x = Mod::new(-123, m);
    let y = Mod::new(456, m);
    assert!(canonical(&x, m));
    assert!(canonical(&y, m));
    assert!(canonical(&x.add(&y), m));
    assert!(canonical(&x.sub(&y), m));
    assert!(canonical(&x.mul(&y), m));
    assert!(canonical(&x.neg(), m));
    assert!(canonical(&x.inv().unwrap(), m));
    assert!(canonical(&Mod::zero(m), m));
    assert!(canonical(&Mod::one(m), m));
}

#[test]
fn test_add_associative_concrete() {
    let m = 97;
    let x = Mod::new(55, m);
    let y = Mod::new(77, m);
    let z = Mod::new(93, m);
    assert_eq!(x.add(&y.add(&z)), x.add(&y).add(&z));
}

#[test]
fn test_add_identity_concrete() {
    let m = 97;
    let x = Mod::new(55, m);
    assert_eq!(x.add(&Mod::zero(m)), x);
}

#[test]
fn test_add_inverse_concrete() {
    let m = 97;
    let x = Mod::new(55, m);
    assert_eq!(x.add(&x.neg()), Mod::zero(m));
}

#[test]
fn test_inverse_round_trip() {
    let x = Mod::new(633, 2801);
    assert!(x.has_inv());
    let i = x.inv().unwrap();
    assert_eq!(i.un_mod(), 177);
    assert_eq!(x.mul(&i), Mod::one(2801));
}

#[test]
fn test_non_invertible_residue() {
    let x = Mod::new(4, 8);
    assert!(!x.has_inv());
    assert!(x.inv().is_none());
    assert!(Mod::zero(5).inv().is_none());
}

#[test]
fn test_inverse_fixture_large() {
    let x = Mod::new(60192921923322822, 427414198414469);
    let i = x.inv().unwrap();
    assert_eq!(i.un_mod(), 368992488398249);
}
