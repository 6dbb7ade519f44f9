use miller_rabin::natural::Natural;
use miller_rabin::is_prime;

const K: usize = 16;

#[test]
fn test_prime() {
    let prime = Natural::from_u64(0x7FFF_FFFF);
    assert!(is_prime(&prime, K));
}

#[test]
fn test_prime_biguint() {
    let prime = Natural::from_decimal(b"2147483647").unwrap();
    assert!(is_prime(&prime, K));
}

#[test]
fn test_composite() {
    let composite = Natural::from_u64(0xFFFF_FFFF_FFFF_FFFF);
    assert!(!is_prime(&composite, K));
}

#[test]
fn test_small_primes() {
    assert!(is_prime(&Natural::from_u64(2), K));
    assert!(is_prime(&Natural::from_u64(3), K));
    assert!(is_prime(&Natural::from_u64(5), K));
    assert!(is_prime(&Natural::from_u64(7), K));
    assert!(is_prime(&Natural::from_u64(11), K));
    assert!(is_prime(&Natural::from_u64(13), K));
}

#[test]
fn test_big_mersenne_prime() {
    let prime = Natural::from_decimal(b"170141183460469231731687303715884105727").unwrap();
    assert!(is_prime(&prime, K));
}

#[test]
fn test_big_wagstaff_prime() {
    let prime = Natural::from_decimal(b"56713727820156410577229101238628035243").unwrap();
    assert!(is_prime(&prime, K));
}

#[test]
fn test_big_composite() {
    let prime = Natural::from_decimal(b"170141183460469231731687303715884105725").unwrap();
    assert!(!is_prime(&prime, K));
}
