//! Arbitrary-precision integers for the asymmetric layer. The crate
//! relies on num_bigint's `BigInt` through the trusted wrappers below;
//! each wrapper's contract states what the named operation computes
//! over the value `int_of` of its operands, as num_bigint's source
//! shows it. All logic above this file is verified against those
//! contracts.

use vstd::arithmetic::power2::pow2;
use vstd::prelude::*;
use num_bigint::BigInt;
use num_bigint::RandBigInt;

verus! {

#[verifier::external_type_specification]
#[verifier::external_body]
pub struct ExBigInt(BigInt);

/// The mathematical integer a `BigInt` holds. num_bigint keeps one
/// canonical representation per value, so equal values are equal
/// representations.
pub uninterp spec fn int_of(b: BigInt) -> int;

/// The signed big-endian byte serialization of an integer, as
/// num_bigint's `to_signed_bytes_be` produces it: a function of the
/// value alone.
pub uninterp spec fn signed_be_bytes_of(v: int) -> Seq<u8>;

/// `b^e` reduced into `[0, m)`, the reference for `modpow`.
pub open spec fn spec_pow_mod(b: int, e: int, m: int) -> int
    decreases e,
{
    if e <= 0 {
        1int % m
    } else {
        (b * spec_pow_mod(b, e - 1, m)) % m
    }
}

/// Relies on `BigInt: From<u64>`.
#[verifier::external_body]
pub(crate) fn big_from_u64(v: u64) -> (r: BigInt)
    ensures
        int_of(r) == v as int,
{
    BigInt::from(v)
}

/// Relies on `BigInt: From<u128>`.
#[verifier::external_body]
pub(crate) fn big_from_u128(v: u128) -> (r: BigInt)
    ensures
        int_of(r) == v as int,
{
    BigInt::from(v)
}

/// Relies on `BigInt: From<i64>`.
#[verifier::external_body]
pub(crate) fn big_from_i64(v: i64) -> (r: BigInt)
    ensures
        int_of(r) == v as int,
{
    BigInt::from(v)
}

/// Relies on `BigInt: Clone`: the same value.
#[verifier::external_body]
pub(crate) fn big_clone(a: &BigInt) -> (r: BigInt)
    ensures
        int_of(r) == int_of(*a),
{
    a.clone()
}

/// Relies on `BigInt: PartialEq`: equality of canonical values.
#[verifier::external_body]
pub(crate) fn big_eq(a: &BigInt, b: &BigInt) -> (r: bool)
    ensures
        r <==> int_of(*a) == int_of(*b),
{
    a == b
}

/// Relies on `BigInt: PartialOrd`: the value order.
#[verifier::external_body]
pub(crate) fn big_lt(a: &BigInt, b: &BigInt) -> (r: bool)
    ensures
        r <==> int_of(*a) < int_of(*b),
{
    a < b
}

/// Relies on `BigInt: Add`.
#[verifier::external_body]
pub(crate) fn big_add(a: &BigInt, b: &BigInt) -> (r: BigInt)
    ensures
        int_of(r) == int_of(*a) + int_of(*b),
{
    a + b
}

/// Relies on `BigInt: Sub`.
#[verifier::external_body]
pub(crate) fn big_sub(a: &BigInt, b: &BigInt) -> (r: BigInt)
    ensures
        int_of(r) == int_of(*a) - int_of(*b),
{
    a - b
}

/// Relies on `BigInt: Mul`.
#[verifier::external_body]
pub(crate) fn big_mul(a: &BigInt, b: &BigInt) -> (r: BigInt)
    ensures
        int_of(r) == int_of(*a) * int_of(*b),
{
    a * b
}

/// Relies on `BigInt: Neg`.
#[verifier::external_body]
pub(crate) fn big_neg(a: &BigInt) -> (r: BigInt)
    ensures
        int_of(r) == -int_of(*a),
{
    -a
}

/// Relies on `BigInt: Div` (truncating), stated on the nonnegative
/// operands this crate divides, where it is Euclidean division.
#[verifier::external_body]
pub(crate) fn big_div(a: &BigInt, b: &BigInt) -> (r: BigInt)
    requires
        int_of(*a) >= 0,
        int_of(*b) > 0,
    ensures
        int_of(r) == int_of(*a) / int_of(*b),
{
    a / b
}

/// Relies on `BigInt: Rem` (sign of the dividend), stated on the
/// nonnegative operands this crate reduces, where it is the Euclidean
/// remainder.
#[verifier::external_body]
pub(crate) fn big_rem(a: &BigInt, b: &BigInt) -> (r: BigInt)
    requires
        int_of(*a) >= 0,
        int_of(*b) > 0,
    ensures
        int_of(r) == int_of(*a) % int_of(*b),
{
    a % b
}

/// Relies on num_integer's `Integer::mod_floor` for `BigInt`: for a
/// positive modulus the result is the representative in `[0, m)`.
#[verifier::external_body]
pub(crate) fn big_mod_floor(a: &BigInt, m: &BigInt) -> (r: BigInt)
    requires
        int_of(*m) > 0,
    ensures
        int_of(r) == int_of(*a) % int_of(*m),
{
    num_integer::Integer::mod_floor(a, m)
}

/// Relies on num_integer's `Integer::div_floor` for `BigInt`: for a
/// positive divisor this is the Euclidean quotient.
#[verifier::external_body]
pub(crate) fn big_div_floor(a: &BigInt, b: &BigInt) -> (r: BigInt)
    requires
        int_of(*b) > 0,
    ensures
        int_of(r) == int_of(*a) / int_of(*b),
{
    num_integer::Integer::div_floor(a, b)
}

/// Relies on `BigInt: Shr<u32>`: an arithmetic shift, which on a
/// nonnegative value halves it, rounding down.
#[verifier::external_body]
pub(crate) fn big_shr1(a: &BigInt) -> (r: BigInt)
    requires
        int_of(*a) >= 0,
    ensures
        int_of(r) == int_of(*a) / 2,
{
    a >> 1u32
}

/// Relies on num_integer's `Integer::is_even` for `BigInt`.
#[verifier::external_body]
pub(crate) fn big_is_even(a: &BigInt) -> (r: bool)
    ensures
        r <==> int_of(*a) % 2 == 0,
{
    num_integer::Integer::is_even(a)
}

/// Relies on `BigInt::modpow`: `b^e` reduced into `[0, m)` for a
/// positive modulus; it panics on a negative exponent or zero modulus,
/// which the contract excludes.
#[verifier::external_body]
pub(crate) fn big_modpow(b: &BigInt, e: &BigInt, m: &BigInt) -> (r: BigInt)
    requires
        int_of(*e) >= 0,
        int_of(*m) > 0,
    ensures
        int_of(r) == spec_pow_mod(int_of(*b), int_of(*e), int_of(*m)),
        0 <= int_of(r) < int_of(*m),
{
    b.modpow(e, m)
}

/// Relies on `BigInt::to_signed_bytes_be`: a function of the value
/// alone, never empty (zero serializes as one zero byte).
#[verifier::external_body]
pub(crate) fn big_to_signed_bytes_be(a: &BigInt) -> (r: Vec<u8>)
    ensures
        r@ == signed_be_bytes_of(int_of(*a)),
        r@.len() >= 1,
{
    a.to_signed_bytes_be()
}

/// Relies on num_bigint's `RandBigInt::gen_bigint_range`: a draw in
/// `[lo, hi)`; it panics when the range is empty, which the contract
/// excludes. Nothing more is assumed of the drawn value.
#[verifier::external_body]
pub(crate) fn big_random_range(lo: &BigInt, hi: &BigInt) -> (r: BigInt)
    requires
        int_of(*lo) < int_of(*hi),
    ensures
        int_of(*lo) <= int_of(r) < int_of(*hi),
{
    rand::thread_rng().gen_bigint_range(lo, hi)
}

/// Relies on `BigInt::bits`: the bit length of the magnitude, zero
/// for zero.
#[verifier::external_body]
pub(crate) fn big_bits(a: &BigInt) -> (r: u64)
    requires
        int_of(*a) >= 0,
    ensures
        int_of(*a) == 0 ==> r == 0,
        int_of(*a) > 0 ==> 1 <= r && pow2((r - 1) as nat) <= int_of(*a) < pow2(r as nat),
{
    a.bits()
}

/// Relies on `BigInt::bit`: bit `i` of a nonnegative value.
#[verifier::external_body]
pub(crate) fn big_bit(a: &BigInt, i: u64) -> (r: bool)
    requires
        int_of(*a) >= 0,
    ensures
        r <==> (int_of(*a) / pow2(i as nat) as int) % 2 == 1,
{
    a.bit(i)
}

} // verus!
