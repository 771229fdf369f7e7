//! Elements of GF(p^2) in the normal basis {alpha, alpha^p}, with
//! alpha a primitive cube root of unity (so p = 2 mod 3). An element
//! `a*alpha + b*alpha^p` is the coefficient pair `(a, b)`, both
//! reduced mod p. The operations below are exactly the ones the XTR
//! trace ladder needs, each with its modular formula as contract.

use vstd::prelude::*;
use num_bigint::BigInt;
use crate::bigint::{
    big_add, big_clone, big_eq, big_from_u64, big_lt, big_mod_floor, big_mul, big_neg,
    big_random_range, big_sub, big_to_signed_bytes_be, int_of, signed_be_bytes_of,
};

verus! {

/// The coefficient pair of an element as mathematical integers.
pub type GFP2Model = (int, int);

/// Componentwise sum, reduced mod p.
pub open spec fn spec_elem_add(p: int, x: GFP2Model, y: GFP2Model) -> GFP2Model {
    ((x.0 + y.0) % p, (x.1 + y.1) % p)
}

/// Componentwise difference, reduced mod p.
pub open spec fn spec_elem_sub(p: int, x: GFP2Model, y: GFP2Model) -> GFP2Model {
    ((x.0 - y.0) % p, (x.1 - y.1) % p)
}

/// The conjugate: coefficients swapped, reduced mod p.
pub open spec fn spec_elem_swap(p: int, x: GFP2Model) -> GFP2Model {
    (x.1 % p, x.0 % p)
}

/// The square, from the identity alpha^2 = -alpha - 1.
pub open spec fn spec_elem_sq(p: int, x: GFP2Model) -> GFP2Model {
    ((x.1 * (x.1 - 2 * x.0)) % p, (x.0 * (x.0 - 2 * x.1)) % p)
}

/// The compound product used by the trace ladder's odd step.
pub open spec fn spec_elem_calc(p: int, x: GFP2Model, y: GFP2Model, z: GFP2Model) -> GFP2Model {
    (
        (z.0 * (y.0 - x.1 - y.1) + z.1 * (x.1 - x.0 + y.1)) % p,
        (z.0 * (x.0 - x.1 + y.0) + z.1 * (y.1 - x.0 - y.0)) % p,
    )
}

/// The element standing for the scalar `v` under the trace map:
/// both coefficients `-v mod p`.
pub open spec fn spec_elem_of_val(p: int, v: int) -> GFP2Model {
    ((-v) % p, (-v) % p)
}

/// An element of GF(p^2): the prime and the coefficient pair.
#[derive(Debug)]
pub struct GFP2Element {
    pub prime: BigInt,
    pub coefficients: (BigInt, BigInt),
}

impl GFP2Element {
    /// The prime this element lives over.
    pub open spec fn p(&self) -> int {
        int_of(self.prime)
    }

    /// The coefficient pair as integers.
    pub open spec fn model(&self) -> GFP2Model {
        (int_of(self.coefficients.0), int_of(self.coefficients.1))
    }

    /// Well-formed over `p`: coefficients reduced into `[0, p)`.
    pub open spec fn wf(&self) -> bool {
        self.p() >= 1 && 0 <= self.model().0 < self.p() && 0 <= self.model().1 < self.p()
    }

    /// A fresh coefficient pair: both drawn from `[0, p - 1)`,
    /// distinct. The second draw is taken from one fewer value and
    /// stepped over the first, which picks a uniform distinct pair
    /// without a retry loop.
    pub fn get_random_coefficients(prime: BigInt) -> (r: (BigInt, BigInt))
        requires
            int_of(prime) >= 3,
        ensures
            0 <= int_of(r.0) < int_of(prime) - 1,
            0 <= int_of(r.1) < int_of(prime) - 1,
            int_of(r.0) != int_of(r.1),
    {
        let zero = big_from_u64(0);
        let one = big_from_u64(1);
        let two = big_from_u64(2);
        let a = big_random_range(&zero, &big_sub(&prime, &one));
        let b0 = big_random_range(&zero, &big_sub(&prime, &two));
        let b = if big_lt(&b0, &a) {
            b0
        } else {
            big_add(&b0, &one)
        };
        (a, b)
    }

    /// A random element over `prime` with distinct coefficients.
    pub fn new(prime: BigInt) -> (r: Self)
        requires
            int_of(prime) >= 3,
        ensures
            r.p() == int_of(prime),
            r.wf(),
            r.model().0 != r.model().1,
    {
        let c = Self::get_random_coefficients(big_clone(&prime));
        proof {
            vstd::arithmetic::div_mod::lemma_small_mod(
                int_of(c.0) as nat,
                int_of(prime) as nat,
            );
            vstd::arithmetic::div_mod::lemma_small_mod(
                int_of(c.1) as nat,
                int_of(prime) as nat,
            );
        }
        Self::new_with_coefficients(prime, c)
    }

    /// The element whose trace stands for the scalar `value`.
    pub fn new_with_val(prime: BigInt, value: BigInt) -> (r: Self)
        requires
            int_of(prime) >= 1,
        ensures
            r.p() == int_of(prime),
            r.model() == spec_elem_of_val(int_of(prime), int_of(value)),
            r.wf(),
    {
        let c = big_mod_floor(&big_neg(&value), &prime);
        GFP2Element { prime, coefficients: (big_clone(&c), c) }
    }

    /// The element with the given coefficients, reduced mod `prime`.
    pub fn new_with_coefficients(prime: BigInt, coefficients: (BigInt, BigInt)) -> (r: Self)
        requires
            int_of(prime) >= 1,
        ensures
            r.p() == int_of(prime),
            r.model() == (
                int_of(coefficients.0) % int_of(prime),
                int_of(coefficients.1) % int_of(prime),
            ),
            r.wf(),
    {
        let c0 = big_mod_floor(&coefficients.0, &prime);
        let c1 = big_mod_floor(&coefficients.1, &prime);
        GFP2Element { prime, coefficients: (c0, c1) }
    }

    /// The same element, value for value.
    pub fn duplicate(&self) -> (r: Self)
        ensures
            r.p() == self.p(),
            r.model() == self.model(),
    {
        GFP2Element {
            prime: big_clone(&self.prime),
            coefficients: (big_clone(&self.coefficients.0), big_clone(&self.coefficients.1)),
        }
    }

    /// The conjugate of the element.
    pub fn get_swapped(&self) -> (r: Self)
        requires
            self.p() >= 1,
        ensures
            r.p() == self.p(),
            r.model() == spec_elem_swap(self.p(), self.model()),
            r.wf(),
    {
        Self::new_with_coefficients(
            big_clone(&self.prime),
            (big_clone(&self.coefficients.1), big_clone(&self.coefficients.0)),
        )
    }

    /// The square of the element.
    pub fn get_pow_2(&self) -> (r: Self)
        requires
            self.p() >= 1,
        ensures
            r.p() == self.p(),
            r.model() == spec_elem_sq(self.p(), self.model()),
            r.wf(),
    {
        let (ref a, ref b) = self.coefficients;
        let two = big_from_u64(2);
        let c0 = big_mul(b, &big_sub(b, &big_mul(&two, a)));
        let c1 = big_mul(a, &big_sub(a, &big_mul(&two, b)));
        Self::new_with_coefficients(big_clone(&self.prime), (c0, c1))
    }

    /// Whether the two coefficients coincide: the acceptance predicate
    /// for a candidate base during key generation.
    pub fn is_p1(&self) -> (r: bool)
        ensures
            r <==> self.model().0 == self.model().1,
    {
        big_eq(&self.coefficients.0, &self.coefficients.1)
    }

    /// The compound product of the trace ladder, over `x`'s prime.
    pub fn calc(x: &Self, y: &Self, z: &Self) -> (r: Self)
        requires
            x.p() >= 1,
        ensures
            r.p() == x.p(),
            r.model() == spec_elem_calc(x.p(), x.model(), y.model(), z.model()),
            r.wf(),
    {
        let (ref xa, ref xb) = x.coefficients;
        let (ref ya, ref yb) = y.coefficients;
        let (ref za, ref zb) = z.coefficients;
        let c0 = big_add(
            &big_mul(za, &big_sub(&big_sub(ya, xb), yb)),
            &big_mul(zb, &big_add(&big_sub(xb, xa), yb)),
        );
        let c1 = big_add(
            &big_mul(za, &big_add(&big_sub(xa, xb), ya)),
            &big_mul(zb, &big_sub(&big_sub(yb, xa), ya)),
        );
        Self::new_with_coefficients(big_clone(&x.prime), (c0, c1))
    }

    /// Componentwise sum over this element's prime.
    pub fn add(&self, rhs: &Self) -> (r: Self)
        requires
            self.p() >= 1,
        ensures
            r.p() == self.p(),
            r.model() == spec_elem_add(self.p(), self.model(), rhs.model()),
            r.wf(),
    {
        let c0 = big_add(&self.coefficients.0, &rhs.coefficients.0);
        let c1 = big_add(&self.coefficients.1, &rhs.coefficients.1);
        Self::new_with_coefficients(big_clone(&self.prime), (c0, c1))
    }

    /// Componentwise difference over this element's prime.
    pub fn sub(&self, rhs: &Self) -> (r: Self)
        requires
            self.p() >= 1,
        ensures
            r.p() == self.p(),
            r.model() == spec_elem_sub(self.p(), self.model(), rhs.model()),
            r.wf(),
    {
        let c0 = big_sub(&self.coefficients.0, &rhs.coefficients.0);
        let c1 = big_sub(&self.coefficients.1, &rhs.coefficients.1);
        Self::new_with_coefficients(big_clone(&self.prime), (c0, c1))
    }

    /// The serialization: the two coefficients' signed big-endian
    /// bytes, concatenated. Equal elements serialize equally.
    #[verifier::loop_isolation(false)]
    pub fn get_bytes(&self) -> (r: Vec<u8>)
        ensures
            r@ == signed_be_bytes_of(self.model().0) + signed_be_bytes_of(self.model().1),
            r@.len() >= 2,
    {
        let mut out = big_to_signed_bytes_be(&self.coefficients.0);
        let mut tail = big_to_signed_bytes_be(&self.coefficients.1);
        let ghost target = signed_be_bytes_of(self.model().0) + signed_be_bytes_of(
            self.model().1,
        );
        let n = tail.len();
        for i in 0..n
            invariant
                n == tail@.len(),
                tail@ == signed_be_bytes_of(self.model().1),
                out@ == signed_be_bytes_of(self.model().0) + tail@.take(i as int),
        {
            out.push(tail[i]);
            proof {
                assert(out@ =~= signed_be_bytes_of(self.model().0) + tail@.take(i as int + 1));
            }
        }
        proof {
            assert(out@ =~= signed_be_bytes_of(self.model().0) + tail@);
        }
        out
    }

    /// Coefficientwise equality, the element equality of this field
    /// representation.
    pub fn equals(&self, other: &Self) -> (r: bool)
        ensures
            r <==> self.model() == other.model(),
    {
        big_eq(&self.coefficients.0, &other.coefficients.0) && big_eq(
            &self.coefficients.1,
            &other.coefficients.1,
        )
    }
}

} // verus!
