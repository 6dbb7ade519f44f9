use miller_rabin::natural::Natural;
use miller_rabin::{decompose, is_prime, is_witness, survives_bases};

#[test]
fn test_decompose_odd_part() {
    // 9 - 1 == 8 == 1 * 2^3
    let dr = decompose(&Natural::from_u64(9));
    assert_eq!(dr.0, Natural::from_u64(1));
    assert_eq!(dr.1, Natural::from_u64(3));
    // 13 - 1 == 12 == 3 * 2^2
    let dr = decompose(&Natural::from_u64(13));
    assert_eq!(dr.0, Natural::from_u64(3));
    assert_eq!(dr.1, Natural::from_u64(2));
    // For an even input the predecessor is already odd: 4 - 1 == 3 * 2^0.
    let dr = decompose(&Natural::from_u64(4));
    assert_eq!(dr.0, Natural::from_u64(3));
    assert_eq!(dr.1, Natural::from_u64(0));
}

#[test]
fn test_witness_even_modulus() {
    // An even modulus is accepted and base 2 witnesses against it.
    assert_eq!(is_witness(&Natural::from_u64(2), &Natural::from_u64(4)), Some(true));
}

#[test]
fn test_fast_path_bounds() {
    let k: usize = 4;
    assert!(!is_prime(&Natural::from_u64(0), k));
    assert!(!is_prime(&Natural::from_u64(1), k));
    assert!(is_prime(&Natural::from_u64(2), k));
    assert!(is_prime(&Natural::from_u64(3), k));
    assert!(!is_prime(&Natural::from_u64(4), k));
    assert!(is_prime(&Natural::from_u64(5), k));
}

#[test]
fn test_witness_of_perfect_cube() {
    // 2 witnesses that 27 == 3^3 is composite.
    let a = Natural::from_u64(2);
    let n = Natural::from_u64(27);
    assert_eq!(is_witness(&a, &n), Some(true));
}

#[test]
fn test_witness_rejects_small_base() {
    let a = Natural::from_u64(1);
    let n = Natural::from_u64(27);
    assert_eq!(is_witness(&a, &n), None);
}

#[test]
fn test_witness_rejects_small_modulus() {
    let a = Natural::from_u64(2);
    let n = Natural::from_u64(2);
    assert_eq!(is_witness(&a, &n), None);
}

#[test]
fn test_no_witness_against_prime() {
    // 2^3 == 1 (mod 7): a non-witness found right at the first power.
    assert_eq!(is_witness(&Natural::from_u64(2), &Natural::from_u64(7)), Some(false));
    // No base in [2, p - 2] witnesses against a prime p.
    let p = Natural::from_u64(13);
    let mut a: u64 = 2;
    while a <= 11 {
        assert_eq!(is_witness(&Natural::from_u64(a), &p), Some(false));
        a += 1;
    }
}

#[test]
fn test_witness_majority_for_composite() {
    // At least three quarters of the bases in [2, n - 2] witness against a
    // composite n; for n == 9 every one of the six does.
    let n = Natural::from_u64(9);
    let mut found: u64 = 0;
    let mut a: u64 = 2;
    while a <= 7 {
        if is_witness(&Natural::from_u64(a), &n) == Some(true) {
            found += 1;
        }
        a += 1;
    }
    assert!(found >= 5);
}

#[test]
fn test_small_composites() {
    let k: usize = 8;
    assert!(!is_prime(&Natural::from_u64(9), k));
    assert!(!is_prime(&Natural::from_u64(15), k));
    assert!(!is_prime(&Natural::from_u64(21), k));
    assert!(!is_prime(&Natural::from_u64(25), k));
    assert!(!is_prime(&Natural::from_u64(27), k));
    assert!(!is_prime(&Natural::from_u64(1_000_000), k));
}

#[test]
fn test_more_small_primes() {
    let k: usize = 8;
    assert!(is_prime(&Natural::from_u64(101), k));
    assert!(is_prime(&Natural::from_u64(65_537), k));
    assert!(is_prime(&Natural::from_u64(4_294_967_291), k));
}

#[test]
fn test_idempotent_deterministic_band() {
    // Below 2^64 the verdict is a function of n alone: repeated calls agree
    // and the witness count k never changes the answer.
    let p = Natural::from_u64(97);
    let first = is_prime(&p, 16);
    let second = is_prime(&p, 16);
    assert_eq!(first, second);
    assert!(is_prime(&p, 0));
    assert!(is_prime(&p, 5));
    let c = Natural::from_u64(95);
    assert!(!is_prime(&c, 0));
    assert!(!is_prime(&c, 50));
}

#[test]
fn test_survives_base_lists() {
    // Base 2 witnesses against 9, and fails to witness against 7.
    let bases = vec![Natural::from_u64(2)];
    assert!(!survives_bases(&Natural::from_u64(9), &bases));
    assert!(survives_bases(&Natural::from_u64(7), &bases));
    // An empty list finds no witness.
    let none: Vec<Natural> = Vec::new();
    assert!(survives_bases(&Natural::from_u64(9), &none));
}

#[test]
fn test_zero_rounds_above_word_range() {
    // Above 2^64 the tester tries k random bases; with k == 0 nothing is
    // tried and the verdict is vacuously true, even on a composite.
    let c = Natural::from_decimal(b"18446744073709551617").unwrap();
    assert!(is_prime(&c, 0));
    assert!(!is_prime(&c, 16));
}

#[test]
fn test_from_decimal_matches_word() {
    assert_eq!(
        Natural::from_decimal(b"18446744073709551615"),
        Some(Natural::from_u64(0xFFFF_FFFF_FFFF_FFFF))
    );
    assert_eq!(Natural::from_decimal(b"0"), Some(Natural::from_u64(0)));
    assert_eq!(Natural::from_decimal(b"4294967296"), Some(Natural::from_u64(1 << 32)));
    assert_eq!(Natural::from_decimal(b""), None);
    assert_eq!(Natural::from_decimal(b"12a"), None);
}
