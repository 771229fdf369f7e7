//! Number-theoretic building blocks of the XTR layer: the extended
//! Euclidean algorithm, the Jacobi symbol, and the Fermat,
//! Solovay–Strassen and Miller–Rabin probabilistic primality tests.
//! Each test's verdict is tied to the spec-level predicate of its
//! round: `false` is returned only with a concrete witness that a
//! round failed, and the small deterministic cases are pinned exactly.

use vstd::arithmetic::div_mod::{lemma_fundamental_div_mod, lemma_small_mod};
use vstd::arithmetic::power2::{lemma_pow2_strictly_increases, lemma_pow2_unfold, pow2};
use vstd::prelude::*;
use num_bigint::BigInt;
use crate::bigint::{
    big_bits, big_clone, big_div, big_eq, big_from_i64, big_from_u64, big_is_even, big_lt,
    big_mod_floor, big_modpow, big_mul, big_neg, big_random_range, big_rem, big_shr1, big_sub,
    int_of, spec_pow_mod,
};

verus! {

/// Greatest common divisor of two nonnegative integers by Euclid's
/// recursion.
pub open spec fn spec_gcd(a: int, b: int) -> int
    recommends
        a >= 0,
        b >= 0,
    decreases b,
{
    if b <= 0 {
        a
    } else {
        spec_gcd(b, a % b)
    }
}

/// The Jacobi symbol `(a / n)` for nonnegative `a` and odd positive
/// `n`, by its standard recursion: strip factors of two (flipping the
/// sign when `n` is 3 or 5 mod 8), then apply quadratic reciprocity.
pub open spec fn spec_jacobi(a: int, n: int) -> int
    recommends
        a >= 0,
        n >= 1,
        n % 2 == 1,
    decreases a,
{
    if a <= 0 {
        if n == 1 {
            1
        } else {
            0
        }
    } else if a % 2 == 0 {
        if n % 8 == 3 || n % 8 == 5 {
            -spec_jacobi(a / 2, n)
        } else {
            spec_jacobi(a / 2, n)
        }
    } else {
        if a % 4 == 3 && n % 4 == 3 {
            -spec_jacobi(n % a, a)
        } else {
            spec_jacobi(n % a, a)
        }
    }
}

/// One Fermat round with base `a` passes: `a` is coprime to `n` and
/// `a^(n-1) = 1 mod n`.
pub open spec fn spec_fermat_passes(a: int, n: int) -> bool {
    spec_gcd(a, n) == 1 && spec_pow_mod(a, n - 1, n) == 1
}

/// One Solovay–Strassen round with base `a` passes: the Jacobi symbol
/// is nonzero and `a^((n-1)/2)` matches it mod `n`.
pub open spec fn spec_ss_passes(a: int, n: int) -> bool {
    spec_jacobi(a, n) != 0 && spec_pow_mod(a, (n - 1) / 2, n) == spec_jacobi(a, n) % n
}

/// Number of factors of two in `m`.
pub open spec fn spec_mr_s(m: int) -> nat
    decreases m,
{
    if m <= 0 || m % 2 == 1 {
        0
    } else {
        1 + spec_mr_s(m / 2)
    }
}

/// The odd part of `m`.
pub open spec fn spec_mr_d(m: int) -> int
    decreases m,
{
    if m <= 0 || m % 2 == 1 {
        m
    } else {
        spec_mr_d(m / 2)
    }
}

/// The Miller–Rabin squaring chain starting at `x` accepts after `s`
/// squarings: no square reaches 1 from anything but `1` or `n - 1`,
/// and the final value is 1.
pub open spec fn spec_mr_ok(x: int, n: int, s: nat) -> bool
    decreases s,
{
    if s == 0 {
        x == 1
    } else {
        let y = spec_pow_mod(x, 2, n);
        !(y == 1 && x != 1 && x != n - 1) && spec_mr_ok(y, n, (s - 1) as nat)
    }
}

/// One Miller–Rabin round with base `a` passes, with `n - 1` factored
/// as `2^s * d`, `d` odd.
pub open spec fn spec_mr_passes(a: int, n: int) -> bool {
    spec_mr_ok(spec_pow_mod(a, spec_mr_d(n - 1), n), n, spec_mr_s(n - 1))
}

/// Extended Euclidean algorithm: the greatest common divisor together
/// with Bézout coefficients. The larger operand is taken as the first
/// dividend, so the coefficients apply to the operands in descending
/// order.
#[verifier::loop_isolation(false)]
pub fn extended_gcd(a: &BigInt, b: &BigInt) -> (r: (BigInt, BigInt, BigInt))
    requires
        int_of(*a) >= 0,
        int_of(*b) >= 0,
        int_of(*a) == 0 ==> int_of(*b) == 0,
    ensures
        int_of(r.0) == spec_gcd(int_of(*a), int_of(*b)),
        ({
            let x = if int_of(*a) >= int_of(*b) {
                int_of(*a)
            } else {
                int_of(*b)
            };
            let y = if int_of(*a) >= int_of(*b) {
                int_of(*b)
            } else {
                int_of(*a)
            };
            int_of(r.1) * x + int_of(r.2) * y == int_of(r.0)
        }),
{
    let zero = big_from_u64(0);
    let one = big_from_u64(1);
    let ghost aa = int_of(*a);
    let ghost bb = int_of(*b);
    let ghost x: int = if aa >= bb { aa } else { bb };
    let ghost y: int = if aa >= bb { bb } else { aa };
    let (mut r0, mut r1) = if big_lt(a, b) {
        (big_clone(b), big_clone(a))
    } else {
        (big_clone(a), big_clone(b))
    };
    proof {
        if aa < bb {
            lemma_small_mod(aa as nat, bb as nat);
            assert(spec_gcd(aa, bb) == spec_gcd(bb, aa));
        }
    }
    let mut s0 = big_clone(&one);
    let mut s1 = big_clone(&zero);
    let mut t0 = big_clone(&zero);
    let mut t1 = big_clone(&one);
    while !big_eq(&r1, &zero)
        invariant
            0 <= int_of(r1) <= int_of(r0),
            int_of(s0) * x + int_of(t0) * y == int_of(r0),
            int_of(s1) * x + int_of(t1) * y == int_of(r1),
            spec_gcd(int_of(r0), int_of(r1)) == spec_gcd(x, y),
        decreases int_of(r1),
    {
        let q = big_div(&r0, &r1);
        let new_r = big_sub(&r0, &big_mul(&q, &r1));
        let new_s = big_sub(&s0, &big_mul(&q, &s1));
        let new_t = big_sub(&t0, &big_mul(&q, &t1));
        proof {
            lemma_fundamental_div_mod(int_of(r0), int_of(r1));
            assert(int_of(new_r) == int_of(r0) % int_of(r1)) by (nonlinear_arith)
                requires
                    int_of(r1) > 0,
                    int_of(r0) >= 0,
                    int_of(q) == int_of(r0) / int_of(r1),
                    int_of(new_r) == int_of(r0) - int_of(q) * int_of(r1),
            ;
            assert(int_of(new_s) * x + int_of(new_t) * y == int_of(new_r)) by (nonlinear_arith)
                requires
                    int_of(s0) * x + int_of(t0) * y == int_of(r0),
                    int_of(s1) * x + int_of(t1) * y == int_of(r1),
                    int_of(new_s) == int_of(s0) - int_of(q) * int_of(s1),
                    int_of(new_t) == int_of(t0) - int_of(q) * int_of(t1),
                    int_of(new_r) == int_of(r0) - int_of(q) * int_of(r1),
            ;
        }
        r0 = r1;
        r1 = new_r;
        s0 = s1;
        s1 = new_s;
        t0 = t1;
        t1 = new_t;
    }
    (r0, s0, t0)
}

/// The Jacobi symbol of `j.0` over the odd positive modulus `j.1`.
/// A negative numerator is reduced by the standard factor
/// `(-1 / n) = (-1)^((n-1)/2)`.
#[verifier::loop_isolation(false)]
pub fn jacobi_symbol(j: (BigInt, BigInt)) -> (r: i8)
    requires
        int_of(j.1) >= 1,
        int_of(j.1) % 2 == 1,
    ensures
        int_of(j.0) >= 0 ==> r as int == spec_jacobi(int_of(j.0), int_of(j.1)),
        int_of(j.0) < 0 ==> r as int == (if int_of(j.1) % 4 == 3 {
            -spec_jacobi(-int_of(j.0), int_of(j.1))
        } else {
            spec_jacobi(-int_of(j.0), int_of(j.1))
        }),
{
    let zero = big_from_u64(0);
    let one = big_from_u64(1);
    let four = big_from_u64(4);
    let eight = big_from_u64(8);
    let (a0, n0) = j;
    let mut result: i8 = 1;
    let mut n = n0;
    let mut a = if big_lt(&a0, &zero) {
        let nm4 = big_rem(&n, &four);
        if big_eq(&nm4, &big_from_u64(3)) {
            result = -1;
        }
        big_neg(&a0)
    } else {
        a0
    };
    let ghost goal: int = if result == 1 {
        spec_jacobi(int_of(a), int_of(n))
    } else {
        -spec_jacobi(int_of(a), int_of(n))
    };
    while !big_eq(&a, &zero)
        invariant
            int_of(a) >= 0,
            int_of(n) >= 1,
            int_of(n) % 2 == 1,
            result == 1 || result == -1,
            goal == (if result == 1 {
                spec_jacobi(int_of(a), int_of(n))
            } else {
                -spec_jacobi(int_of(a), int_of(n))
            }),
        decreases int_of(a),
    {
        let ghost a_head = int_of(a);
        while big_is_even(&a)
            invariant
                1 <= int_of(a) <= a_head,
                int_of(n) >= 1,
                int_of(n) % 2 == 1,
                result == 1 || result == -1,
                goal == (if result == 1 {
                    spec_jacobi(int_of(a), int_of(n))
                } else {
                    -spec_jacobi(int_of(a), int_of(n))
                }),
            decreases int_of(a),
        {
            let n_mod_8 = big_rem(&n, &eight);
            if big_eq(&n_mod_8, &big_from_u64(3)) || big_eq(&n_mod_8, &big_from_u64(5)) {
                result = -result;
            }
            a = big_shr1(&a);
        }
        let tmp = a;
        a = n;
        n = tmp;
        let am4 = big_rem(&a, &four);
        let nm4 = big_rem(&n, &four);
        if big_eq(&am4, &big_from_u64(3)) && big_eq(&nm4, &big_from_u64(3)) {
            result = -result;
        }
        a = big_rem(&a, &n);
    }
    if big_eq(&n, &one) {
        result
    } else {
        0
    }
}

/// Fermat primality test with `i` random rounds. `false` comes only
/// from the deterministic small cases or from a sampled base that
/// fails its round.
#[verifier::loop_isolation(false)]
pub fn fermat_test(n: &BigInt, i: u64) -> (r: bool)
    ensures
        int_of(*n) <= 1 ==> !r,
        int_of(*n) == 2 || int_of(*n) == 3 ==> r,
        int_of(*n) > 3 && int_of(*n) % 2 == 0 ==> !r,
        int_of(*n) > 3 && int_of(*n) % 2 == 1 && i == 0 ==> r,
        !r && int_of(*n) > 3 && int_of(*n) % 2 == 1 ==> exists|a: int|
            2 <= a < int_of(*n) - 1 && !#[trigger] spec_fermat_passes(a, int_of(*n)),
{
    let one = big_from_u64(1);
    let two = big_from_u64(2);
    let three = big_from_u64(3);
    if !big_lt(&one, n) {
        return false;
    }
    if !big_lt(&three, n) {
        return true;
    }
    if big_is_even(n) {
        return false;
    }
    let nm1 = big_sub(n, &one);
    for _k in 0..i {
        let a = big_random_range(&two, &nm1);
        let g = extended_gcd(&a, n);
        if !big_eq(&g.0, &one) {
            proof {
                assert(!spec_fermat_passes(int_of(a), int_of(*n)));
            }
            return false;
        }
        let p = big_modpow(&a, &nm1, n);
        if !big_eq(&p, &one) {
            proof {
                assert(!spec_fermat_passes(int_of(a), int_of(*n)));
            }
            return false;
        }
    }
    true
}

/// Solovay–Strassen primality test with `i` random rounds. `false`
/// comes only from the deterministic small cases or from a sampled
/// base that fails its round.
#[verifier::loop_isolation(false)]
pub fn solovey_strassen_test(n: &BigInt, i: u64) -> (r: bool)
    ensures
        int_of(*n) <= 1 ==> !r,
        int_of(*n) == 2 || int_of(*n) == 3 ==> r,
        int_of(*n) > 3 && int_of(*n) % 2 == 0 ==> !r,
        int_of(*n) > 3 && int_of(*n) % 2 == 1 && i == 0 ==> r,
        !r && int_of(*n) > 3 && int_of(*n) % 2 == 1 ==> exists|a: int|
            2 <= a < int_of(*n) && !#[trigger] spec_ss_passes(a, int_of(*n)),
{
    let one = big_from_u64(1);
    let two = big_from_u64(2);
    let three = big_from_u64(3);
    if !big_lt(&one, n) {
        return false;
    }
    if !big_lt(&three, n) {
        return true;
    }
    if big_is_even(n) {
        return false;
    }
    let nm1 = big_sub(n, &one);
    for _k in 0..i {
        let a = big_random_range(&two, n);
        let x = jacobi_symbol((big_clone(&a), big_clone(n)));
        if x == 0 {
            proof {
                assert(!spec_ss_passes(int_of(a), int_of(*n)));
            }
            return false;
        }
        let e = big_div(&nm1, &two);
        let p = big_modpow(&a, &e, n);
        let jx = big_from_i64(x as i64);
        let jm = big_mod_floor(&jx, n);
        if !big_eq(&p, &jm) {
            proof {
                assert(!spec_ss_passes(int_of(a), int_of(*n)));
            }
            return false;
        }
    }
    true
}

/// Miller–Rabin primality test with `i` random rounds. `false` comes
/// only from the deterministic small cases or from a sampled base
/// whose squaring chain fails.
#[verifier::loop_isolation(false)]
pub fn miller_rabin_test(n: &BigInt, i: u64) -> (r: bool)
    ensures
        int_of(*n) <= 1 ==> !r,
        int_of(*n) == 2 || int_of(*n) == 3 ==> r,
        int_of(*n) > 3 && int_of(*n) % 2 == 0 ==> !r,
        int_of(*n) > 3 && int_of(*n) % 2 == 1 && i == 0 ==> r,
        !r && int_of(*n) > 3 && int_of(*n) % 2 == 1 ==> exists|a: int|
            2 <= a < int_of(*n) - 1 && !#[trigger] spec_mr_passes(a, int_of(*n)),
{
    let one = big_from_u64(1);
    let two = big_from_u64(2);
    let three = big_from_u64(3);
    if !big_lt(&one, n) {
        return false;
    }
    if !big_lt(&three, n) {
        return true;
    }
    if big_is_even(n) {
        return false;
    }
    let ghost nn = int_of(*n);
    let nm1 = big_sub(n, &one);
    let ghost d0 = nn - 1;
    let mut s: u64 = 0;
    let mut d = big_clone(&nm1);
    let bits_d0 = big_bits(&d);
    proof {
        vstd::arithmetic::power2::lemma2_to64();
    }
    while big_is_even(&d)
        invariant
            int_of(d) >= 1,
            d0 == int_of(d) * pow2(s as nat),
            pow2(s as nat) <= d0,
            spec_mr_d(d0) == spec_mr_d(int_of(d)),
            spec_mr_s(d0) == spec_mr_s(int_of(d)) + s,
        decreases int_of(d),
    {
        proof {
            if s >= bits_d0 {
                if s > bits_d0 {
                    lemma_pow2_strictly_increases(bits_d0 as nat, s as nat);
                }
                assert(false);
            }
            lemma_pow2_unfold((s + 1) as nat);
            assert(int_of(d) / 2 * (2 * pow2(s as nat)) == int_of(d) * pow2(s as nat))
                by (nonlinear_arith)
                requires
                    int_of(d) % 2 == 0,
                    int_of(d) / 2 * 2 == int_of(d),
            ;
            assert(1 * pow2((s + 1) as nat) <= int_of(d) / 2 * pow2((s + 1) as nat))
                by (nonlinear_arith)
                requires
                    1 <= int_of(d) / 2,
                    pow2((s + 1) as nat) > 0,
            ;
            lemma_fundamental_div_mod(int_of(d), 2);
        }
        s = s + 1;
        d = big_shr1(&d);
    }
    proof {
        assert(spec_mr_d(d0) == int_of(d) && spec_mr_s(d0) == s);
    }
    for _k in 0..i {
        let a = big_random_range(&two, &nm1);
        let mut x = big_modpow(&a, &d, n);
        let ghost x0 = int_of(x);
        let mut y = big_from_u64(0);
        let mut j: u64 = 0;
        while j < s
            invariant
                0 <= j <= s,
                (spec_mr_ok(x0, nn, s as nat) <==> spec_mr_ok(int_of(x), nn, (s - j) as nat)),
                j >= 1 ==> int_of(y) == int_of(x),
            decreases s - j,
        {
            y = big_modpow(&x, &two, n);
            if big_eq(&y, &one) && !big_eq(&x, &one) && !big_eq(&x, &nm1) {
                proof {
                    assert(!spec_mr_ok(int_of(x), nn, (s - j) as nat));
                    assert(!spec_mr_passes(int_of(a), nn));
                }
                return false;
            }
            x = big_clone(&y);
            j = j + 1;
        }
        if !big_eq(&y, &one) {
            proof {
                assert(!spec_mr_ok(int_of(x), nn, 0));
                assert(!spec_mr_passes(int_of(a), nn));
            }
            return false;
        }
    }
    true
}

} // verus!
