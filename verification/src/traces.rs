//! The XTR trace engine: computes Tr(g^n) from Tr(g) by a
//! double-and-add ladder on the bits of `n`, memoizing every value it
//! derives. The reference is the recursion `spec_s`: `s(0)` stands
//! for the scalar 3, `s(1)` is the base trace, `s(2k)` comes from
//! `s(k)` alone and `s(2k+1)` from the triple around `k`.

use vstd::arithmetic::div_mod::{lemma_div_denominator, lemma_fundamental_div_mod};
use vstd::arithmetic::power2::{lemma_pow2_pos, lemma_pow2_unfold, pow2};
use vstd::prelude::*;
use num_bigint::BigInt;
use crate::bigint::{big_add, big_bit, big_bits, big_clone, big_eq, big_from_u64, big_sub, int_of};
use crate::gfp2::{
    spec_elem_add, spec_elem_calc, spec_elem_of_val, spec_elem_sq, spec_elem_sub, spec_elem_swap,
    GFP2Element, GFP2Model,
};

verus! {

/// The trace ladder value `s(n)` over prime `p` with base trace `c`.
pub open spec fn spec_s(p: int, c: GFP2Model, n: int) -> GFP2Model
    decreases n,
{
    if n <= 0 {
        spec_elem_of_val(p, 3)
    } else if n == 1 {
        c
    } else if n % 2 == 0 {
        let h = spec_s(p, c, n / 2);
        spec_elem_sub(p, spec_elem_sq(p, h), spec_elem_swap(p, spec_elem_add(p, h, h)))
    } else {
        let k = (n - 1) / 2;
        spec_elem_add(
            p,
            spec_elem_calc(p, spec_s(p, c, k + 1), c, spec_s(p, c, k)),
            spec_elem_swap(p, spec_s(p, c, k - 1)),
        )
    }
}

/// Stepping a right shift of `n` one bit further down doubles the
/// shifted value and brings in the next bit.
proof fn lemma_shift_step(n: int, k: nat)
    requires
        n >= 0,
        k >= 1,
    ensures
        n / pow2((k - 1) as nat) as int == 2 * (n / pow2(k) as int) + (n / pow2(
            (k - 1) as nat,
        ) as int) % 2,
{
    lemma_pow2_unfold(k);
    lemma_pow2_pos((k - 1) as nat);
    lemma_pow2_pos(k);
    let ph = pow2((k - 1) as nat) as int;
    lemma_div_denominator(n, ph, 2);
    let m = n / ph;
    lemma_fundamental_div_mod(m, 2);
}

/// The memoizing trace evaluator: the prime, the current base trace,
/// and every ladder value derived so far, keyed by its index.
pub struct GFP2Traces {
    pub prime: BigInt,
    pub c: Option<GFP2Element>,
    pub memo: Vec<(BigInt, GFP2Element)>,
}

impl GFP2Traces {
    /// The prime this evaluator works over.
    pub open spec fn p(&self) -> int {
        int_of(self.prime)
    }

    /// The model of the current base trace.
    pub open spec fn cm(&self) -> GFP2Model {
        self.c->0.model()
    }

    /// Every memo entry holds the ladder value of its key.
    pub open spec fn wf(&self) -> bool {
        &&& self.p() >= 1
        &&& (self.c is Some ==> self.c->0.wf() && self.c->0.p() == self.p())
        &&& (self.c is None ==> self.memo@.len() == 0)
        &&& (forall|i: int|
            0 <= i < self.memo@.len() ==> {
                let e = #[trigger] self.memo@[i];
                int_of(e.0) >= 0 && e.1.wf() && e.1.p() == self.p() && e.1.model() == spec_s(
                    self.p(),
                    self.cm(),
                    int_of(e.0),
                )
            })
    }

    /// A fresh evaluator with no base set.
    pub fn new(prime: BigInt) -> (r: Self)
        requires
            int_of(prime) >= 1,
        ensures
            r.wf(),
            r.p() == int_of(prime),
            r.c is None,
    {
        GFP2Traces { prime, c: None, memo: Vec::new() }
    }

    /// Look the index up in the memo; a hit returns the ladder value
    /// of that index.
    fn memo_find(&self, n: &BigInt) -> (r: Option<GFP2Element>)
        requires
            self.wf(),
            self.c is Some,
        ensures
            r is Some ==> r->0.wf() && r->0.p() == self.p() && r->0.model() == spec_s(
                self.p(),
                self.cm(),
                int_of(*n),
            ),
    {
        let len = self.memo.len();
        for i in 0..len
            invariant
                len == self.memo@.len(),
                self.wf(),
                self.c is Some,
        {
            let e = &self.memo[i];
            if big_eq(&e.0, n) {
                return Some(e.1.duplicate());
            }
        }
        None
    }

    /// Compute the ladder value `s(n)`, walking the bits of `n` from
    /// the most significant downward and memoizing each new index.
    #[verifier::loop_isolation(false)]
    pub fn calc_s(&mut self, n: BigInt) -> (r: GFP2Element)
        requires
            old(self).wf(),
            old(self).c is Some,
            int_of(n) >= 0,
        ensures
            final(self).wf(),
            final(self).c is Some,
            final(self).p() == old(self).p(),
            final(self).cm() == old(self).cm(),
            r.wf(),
            r.p() == old(self).p(),
            r.model() == spec_s(old(self).p(), old(self).cm(), int_of(n)),
        decreases int_of(n),
    {
        let ghost p0 = old(self).p();
        let ghost cm0 = old(self).cm();
        if let Some(a) = self.memo_find(&n) {
            return a;
        }
        let zero = big_from_u64(0);
        let one = big_from_u64(1);
        if big_eq(&n, &zero) {
            let three = GFP2Element::new_with_val(big_clone(&self.prime), big_from_u64(3));
            return three;
        }
        if big_eq(&n, &one) {
            let c = match &self.c {
                Some(c) => c.duplicate(),
                None => vstd::pervasive::unreached(),
            };
            return c;
        }
        let bits = big_bits(&n);
        let mut n_curr = big_from_u64(1);
        let mut cur = match &self.c {
            Some(c) => c.duplicate(),
            None => vstd::pervasive::unreached(),
        };
        proof {
            lemma_pow2_unfold(bits as nat);
            lemma_pow2_pos((bits - 1) as nat);
            assert(int_of(n) / pow2((bits - 1) as nat) as int == 1) by (nonlinear_arith)
                requires
                    pow2((bits - 1) as nat) as int <= int_of(n) < 2 * pow2((bits - 1) as nat) as int,
                    pow2((bits - 1) as nat) as int > 0,
            ;
        }
        for i in 1..bits
            invariant
                self.wf(),
                self.c is Some,
                self.p() == p0,
                self.cm() == cm0,
                int_of(n_curr) == int_of(n) / pow2((bits - i) as nat) as int,
                1 <= int_of(n_curr) <= int_of(n),
                cur.wf(),
                cur.p() == p0,
                cur.model() == spec_s(p0, cm0, int_of(n_curr)),
        {
            let bit = big_bit(&n, bits - i - 1);
            let n_new = big_add(
                &big_add(&n_curr, &n_curr),
                &(if bit {
                    big_from_u64(1)
                } else {
                    big_from_u64(0)
                }),
            );
            proof {
                lemma_shift_step(int_of(n), (bits - i) as nat);
                lemma_pow2_pos((bits - i - 1) as nat);
                assert(int_of(n) / pow2((bits - i - 1) as nat) as int <= int_of(n)) by {
                    vstd::arithmetic::div_mod::lemma_div_is_ordered_by_denominator(
                        int_of(n),
                        1,
                        pow2((bits - i - 1) as nat) as int,
                    );
                    vstd::arithmetic::div_mod::lemma_div_basics(int_of(n));
                }
                assert(int_of(n_new) == int_of(n) / pow2((bits - i - 1) as nat) as int);
            }
            let found = self.memo_find(&n_new);
            let was_hit = found.is_some();
            let new_elem = match found {
                Some(e) => e,
                None => {
                    if bit {
                        proof {
                            assert(int_of(n_curr) + 1 < int_of(n));
                        }
                        let sp1 = self.calc_s(big_add(&n_curr, &one));
                        let sm1 = self.calc_s(big_sub(&n_curr, &one));
                        let cbase = match &self.c {
                            Some(c) => c.duplicate(),
                            None => vstd::pervasive::unreached(),
                        };
                        GFP2Element::calc(&sp1, &cbase, &cur).add(&sm1.get_swapped())
                    } else {
                        cur.get_pow_2().sub(&cur.add(&cur).get_swapped())
                    }
                },
            };
            proof {
                assert(new_elem.model() == spec_s(p0, cm0, int_of(n_new)));
            }
            if !was_hit {
                let key = big_clone(&n_new);
                let entry_val = new_elem.duplicate();
                self.memo.push((key, entry_val));
            }
            cur = new_elem;
            n_curr = n_new;
        }
        proof {
            assert(pow2(0) == 1) by {
                vstd::arithmetic::power2::lemma2_to64();
            }
            vstd::arithmetic::div_mod::lemma_div_basics(int_of(n));
        }
        cur
    }

    /// Compute Tr(g^n): a new base trace (when given and different
    /// from the stored one) reseeds the memo with `s(0)` and `s(1)`,
    /// then the ladder runs on `n`.
    pub fn calc_trace(&mut self, n: BigInt, c: Option<GFP2Element>) -> (r: GFP2Element)
        requires
            old(self).wf(),
            int_of(n) >= 0,
            c is Some ==> c->0.wf() && c->0.p() == old(self).p(),
            c is None ==> old(self).c is Some,
        ensures
            final(self).wf(),
            final(self).c is Some,
            final(self).p() == old(self).p(),
            final(self).cm() == (if c is Some {
                c->0.model()
            } else {
                old(self).cm()
            }),
            r.wf(),
            r.p() == old(self).p(),
            r.model() == spec_s(
                old(self).p(),
                if c is Some {
                    c->0.model()
                } else {
                    old(self).cm()
                },
                int_of(n),
            ),
    {
        if let Some(nc) = c {
            let replace = match &self.c {
                None => true,
                Some(sc) => !sc.equals(&nc),
            };
            if replace {
                let three = GFP2Element::new_with_val(big_clone(&self.prime), big_from_u64(3));
                let mut m: Vec<(BigInt, GFP2Element)> = Vec::new();
                m.push((big_from_u64(0), three));
                m.push((big_from_u64(1), nc.duplicate()));
                self.c = Some(nc);
                self.memo = m;
            }
        }
        self.calc_s(n)
    }
}

} // verus!
