use num_bigint::BigInt;
use s6_hcs::primes::{extended_gcd, fermat_test, jacobi_symbol, miller_rabin_test, solovey_strassen_test};

#[test]
fn test_extended_gcd() {
    let (g, s, t) = extended_gcd(&BigInt::from(240), &BigInt::from(46));
    assert_eq!(g, BigInt::from(2));
    assert_eq!(s * BigInt::from(240) + t * BigInt::from(46), BigInt::from(2));

    let (g, s, t) = extended_gcd(&BigInt::from(46), &BigInt::from(240));
    assert_eq!(g, BigInt::from(2));
    assert_eq!(s * BigInt::from(240) + t * BigInt::from(46), BigInt::from(2));

    let (g, _, _) = extended_gcd(&BigInt::from(17), &BigInt::from(31));
    assert_eq!(g, BigInt::from(1));

    let (g, s, _) = extended_gcd(&BigInt::from(12), &BigInt::from(0));
    assert_eq!(g, BigInt::from(12));
    assert_eq!(s, BigInt::from(1));
}

#[test]
fn test_jacobi() {
    assert!(jacobi_symbol((BigInt::from(2), BigInt::from(9))) == 1);
    assert!(jacobi_symbol((BigInt::from(-2), BigInt::from(7))) == -1);
    assert!(jacobi_symbol((BigInt::from(15), BigInt::from(97))) == -1);
}

#[test]
fn test_jacobi_zero_and_one() {
    assert_eq!(jacobi_symbol((BigInt::from(0), BigInt::from(1))), 1);
    assert_eq!(jacobi_symbol((BigInt::from(0), BigInt::from(9))), 0);
    assert_eq!(jacobi_symbol((BigInt::from(21), BigInt::from(7))), 0);
}

#[test]
fn test_fermat() {
    assert!(fermat_test(&BigInt::from(3), 16));
    assert!(fermat_test(&BigInt::from(397), 6));
    assert!(!fermat_test(&BigInt::from(4), 100));
}

#[test]
fn test_solovey_strassen() {
    assert!(solovey_strassen_test(&BigInt::from(3), 16));
    assert!(solovey_strassen_test(&BigInt::from(397), 6));
    assert!(!solovey_strassen_test(&BigInt::from(4), 100));
}

#[test]
fn test_miller_rabin() {
    assert!(miller_rabin_test(&BigInt::from(3), 16));
    assert!(miller_rabin_test(&BigInt::from(397), 6));
    assert!(!miller_rabin_test(&BigInt::from(4), 100));
}

#[test]
fn test_small_cases() {
    for n in [-5i64, 0, 1] {
        assert!(!fermat_test(&BigInt::from(n), 16));
        assert!(!solovey_strassen_test(&BigInt::from(n), 16));
        assert!(!miller_rabin_test(&BigInt::from(n), 16));
    }
    for n in [2i64, 3] {
        assert!(fermat_test(&BigInt::from(n), 16));
        assert!(solovey_strassen_test(&BigInt::from(n), 16));
        assert!(miller_rabin_test(&BigInt::from(n), 16));
    }
}

#[test]
fn test_primality_agreement() {
    for n in 2u32..=10000 {
        let big = BigInt::from(n);
        let f = fermat_test(&big, 40);
        let s = solovey_strassen_test(&big, 16);
        let m = miller_rabin_test(&big, 16);
        assert_eq!(f, s, "tests disagree at {}", n);
        assert_eq!(s, m, "tests disagree at {}", n);
    }
}
