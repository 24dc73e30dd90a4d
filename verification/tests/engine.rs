//! Tests of the inversion and multiplication primitives.

use modular::extended_gcd;
use modular::mod_floor;
use modular::mod_inv;
use modular::mod_mult;

#[test]
fn test_mod_inverse() {
    let cases: Vec<(i64, i64, i64)> = vec![
        (633, 177, 2801),
        (271, 106, 383),
        (2983498573497, 515317423113, 903455098240),
        (60192921923322822, 368992488398249, 427414198414469),
    ];
    for (a, a_inv, modulus) in cases {
        let result = mod_inv(a, modulus);

        assert!(result.is_some());

        let result = result.unwrap();

        assert_eq!(extended_gcd(a, modulus).0, 1);
        assert_eq!(result, a_inv);
    }
}

#[test]
fn test_inverse_verifies_product() {
    assert_eq!(mod_mult(633, 177, 2801), 1);
    assert_eq!(mod_mult(271, 106, 383), 1);
    assert_eq!(mod_mult(2983498573497, 515317423113, 903455098240), 1);
    assert_eq!(mod_mult(60192921923322822, 368992488398249, 427414198414469), 1);
}

#[test]
fn test_no_inverse_shared_factor() {
    assert_eq!(mod_inv(4, 8), None);
    assert_eq!(mod_inv(6, 9), None);
    assert_eq!(mod_inv(0, 5), None);
}

#[test]
fn test_inverse_modulus_one() {
    assert_eq!(mod_inv(7, 1), Some(0));
}

#[test]
fn test_inverse_of_negative_value() {
    // -3 is congruent to 4 modulo 7, and 4*2 = 8 = 1 mod 7.
    let r = mod_inv(-3, 7).unwrap();
    assert_eq!(r, 2);
    assert_eq!(mod_mult(-3, r, 7), 1);
}

#[test]
fn test_extended_gcd_bezout_identity() {
    let cases: Vec<(i64, i64)> = vec![
        (240, 46),
        (46, 240),
        (-240, 46),
        (240, -46),
        (-240, -46),
        (17, 5),
        (0, 9),
        (9, 0),
        (-9, 0),
        (1, 1),
    ];
    for (a, b) in cases {
        let (g, x, y) = extended_gcd(a, b);
        assert!(g >= 0);
        assert_eq!(
            (a as i128) * (x as i128) + (b as i128) * (y as i128),
            g as i128
        );
    }
}

#[test]
fn test_extended_gcd_values() {
    assert_eq!(extended_gcd(240, 46).0, 2);
    assert_eq!(extended_gcd(12, 18).0, 6);
    assert_eq!(extended_gcd(-12, 18).0, 6);
    assert_eq!(extended_gcd(7, 0).0, 7);
    assert_eq!(extended_gcd(-7, 0).0, 7);
    assert_eq!(extended_gcd(0, 0).0, 0);
}

#[test]
fn test_extended_gcd_largest_inputs() {
    let (g, x, y) = extended_gcd(i64::MAX, i64::MAX - 1);
    assert_eq!(g, 1);
    assert_eq!(
        (i64::MAX as i128) * (x as i128) + ((i64::MAX - 1) as i128) * (y as i128),
        1
    );
}

#[test]
fn test_mod_floor_canonicalizes() {
    assert_eq!(mod_floor(-3, 5), 2);
    assert_eq!(mod_floor(-5, 5), 0);
    assert_eq!(mod_floor(13, 5), 3);
    assert_eq!(mod_floor(0, 5), 0);
    assert_eq!(mod_floor(i64::MIN, 3), 1);
}

#[test]
fn test_mod_mult_agrees_with_wide_reference() {
    let cases: Vec<(i64, i64, i64)> = vec![
        (7, 8, 5),
        (-7, 8, 5),
        (7, -8, 5),
        (-7, -8, 5),
        (i64::MAX, i64::MAX - 1, 1000000007),
        (i64::MIN, i64::MAX, 999999937),
        (123456789123456789, 987654321987654321, 427414198414469),
        (5, 0, 9),
    ];
    for (a, b, m) in cases {
        let wide = ((a as i128) * (b as i128)).rem_euclid(m as i128) as i64;
        let reduced = mod_mult(mod_floor(a, m), mod_floor(b, m), m);
        assert_eq!(mod_mult(a, b, m), wide);
        assert_eq!(reduced, wide);
    }
}
