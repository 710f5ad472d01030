use dhcrypt::errors::CryptoError;
use dhcrypt::factor::{factor, gcd, is_prime};

#[test]
fn check_split_pq() {
    let pq: u64 = 273366826352239;
    assert_eq!(factor(pq, 1), Ok((16387691, 16681229)));
}

#[test]
fn factor_concrete_pair() {
    // 1721 * 1723: a twin pair of odd primes.
    let pq: u64 = 1721 * 1723;
    assert_eq!(pq, 2965283);
    assert_eq!(factor(pq, 7), Ok((1721, 1723)));
}

#[test]
fn factor_three_prime_composite_fails() {
    // 3027599 = 37 * 47 * 1741 has three prime factors, so no split into
    // two primes exists and the search must exhaust its retries.
    assert_eq!(factor(3027599, 7), Err(CryptoError::Factorization));
}

#[test]
fn factor_small_composites() {
    let primes: [u64; 10] = [3, 5, 7, 11, 13, 17, 19, 23, 29, 31];
    for i in 0..primes.len() {
        for j in (i + 1)..primes.len() {
            let (p, q) = (primes[i], primes[j]);
            assert_eq!(factor(p * q, 99), Ok((p, q)));
        }
    }
}

#[test]
fn factor_larger_composites() {
    let pairs: [(u64, u64); 4] = [
        (1009, 1013),
        (65521, 65537),
        (1000003, 1000033),
        (16387691, 16681229),
    ];
    for (p, q) in pairs {
        assert_eq!(factor(p * q, 5), Ok((p, q)));
    }
}

#[test]
fn factor_seed_independent() {
    // Different random paths must reach the same mathematical pair.
    let pq: u64 = 2965283;
    let mut results: Vec<(u64, u64)> = Vec::new();
    for seed in [0u64, 1, 2, 42, 0xDEADBEEF, u64::MAX] {
        results.push(factor(pq, seed).expect("factorization failed"));
    }
    for r in &results {
        assert_eq!(*r, (1721, 1723));
    }
}

#[test]
fn factor_rejects_malformed_input() {
    assert_eq!(factor(0, 1), Err(CryptoError::InvalidInput));
    assert_eq!(factor(2, 1), Err(CryptoError::InvalidInput));
    assert_eq!(factor(9, 1), Err(CryptoError::InvalidInput));
    assert_eq!(factor(100, 1), Err(CryptoError::InvalidInput));
    assert_eq!(factor(14, 1), Err(CryptoError::InvalidInput));
}

#[test]
fn factor_prime_exhausts_retries() {
    // A prime has no nontrivial divisor, so the search runs out of retries.
    assert_eq!(factor(17, 3), Err(CryptoError::Factorization));
}

#[test]
fn gcd_and_primality() {
    assert_eq!(gcd(12, 18), 6);
    assert_eq!(gcd(17, 5), 1);
    assert_eq!(gcd(0, 9), 9);
    assert_eq!(gcd(9, 0), 9);
    assert!(is_prime(2));
    assert!(is_prime(1741));
    assert!(is_prime(16387691));
    assert!(!is_prime(0));
    assert!(!is_prime(1));
    assert!(!is_prime(1739 * 1741));
}
