//! XTR key agreement over GF(p^2). The server generates parameters
//! `(p, q, Tr(g))` under the mandated congruences, publishes an
//! ElGamal-style pair, and both sides derive the same symmetric key
//! bytes from the trace ladder. Each random search is bounded by a
//! generous attempt cap so that every function provably terminates;
//! exhausting the cap reports failure instead of looping on.

use vstd::arithmetic::div_mod::{lemma_fundamental_div_mod, lemma_mod_multiples_vanish, lemma_small_mod};
use vstd::prelude::*;
use num_bigint::BigInt;
use crate::bigint::{
    big_add, big_clone, big_div_floor, big_eq, big_from_u128, big_from_u64, big_lt, big_mul,
    big_random_range, big_rem, big_sub, int_of, signed_be_bytes_of,
};
use crate::gfp2::{spec_elem_of_val, GFP2Element, GFP2Model};
use crate::primes::miller_rabin_test;
use crate::traces::{spec_s, GFP2Traces};

verus! {

/// Attempt cap of each random search; far beyond the expected number
/// of draws, so in practice the searches always succeed.
pub const GEN_ATTEMPTS: u32 = 10000000;

/// Rounds of Miller-Rabin applied to each prime candidate.
pub const PRIME_ROUNDS: u64 = 1024;

/// The published parameters: `(p, q, Tr(g))`.
pub type PubKey = (BigInt, BigInt, GFP2Element);

/// The server secret: the scalar `k` with `Tr(g^k)`.
pub type SecretKey = (BigInt, GFP2Element);

/// The client derivation: the shared key bytes with `Tr(g^b)`.
pub type SymmetricKey = (Vec<u8>, GFP2Element);

/// `q` has the form `r^2 - r + 1`.
pub open spec fn spec_q_form(q: int, rv: int) -> bool {
    q == rv * rv - rv + 1
}

/// The subgroup order quotient `(p^2 - p + 1) / q`.
pub open spec fn spec_quotient(p: int, q: int) -> int {
    (p * p + 1 - p) / q
}

/// The byte serialization both sides derive from a trace value.
pub open spec fn spec_trace_bytes(p: int, c: GFP2Model, n: int) -> Seq<u8> {
    signed_be_bytes_of(spec_s(p, c, n).0) + signed_be_bytes_of(spec_s(p, c, n).1)
}

/// What `generate_key` promises of a published triple: the
/// congruences of the scheme, and a base trace whose ladder passed
/// the acceptance test at `p + 1` and is not the scalar 3 at the
/// quotient.
pub open spec fn spec_pubkey_ok(p: int, q: int, t: GFP2Element) -> bool {
    &&& p > 3
    &&& p % 3 == 2
    &&& q >= 7
    &&& q % 12 == 7
    &&& (exists|rv: int|
        0 <= rv < 0x1_0000_0000_0000_0000_0000_0000_0000_0000int && #[trigger] spec_q_form(q, rv) && p % q == rv % q)
    &&& t.wf()
    &&& t.p() == p
    &&& (exists|c: GFP2Model|
        (#[trigger] spec_s(p, c, spec_quotient(p, q))) == t.model() && spec_s(p, c, p + 1).0
            == spec_s(p, c, p + 1).1)
    &&& t.model() != spec_elem_of_val(p, 3)
}

/// Server-side key generator holding the published parameters.
pub struct XTRKeygen {
    pub pub_key: Option<PubKey>,
}

impl XTRKeygen {
    /// The stored triple satisfies what generation promised.
    pub open spec fn wf(&self) -> bool {
        self.pub_key is Some ==> spec_pubkey_ok(
            int_of((self.pub_key->0).0),
            int_of((self.pub_key->0).1),
            (self.pub_key->0).2,
        )
    }

    pub fn new() -> (r: XTRKeygen)
        ensures
            r.pub_key is None,
            r.wf(),
    {
        XTRKeygen { pub_key: None }
    }

    /// Generate and store `(p, q, Tr(g))`: sample `r` until
    /// `q = r^2 - r + 1` is `7 mod 12` and probably prime, sample `k`
    /// until `p = r + k*q` is `2 mod 3` and probably prime, then
    /// search for a base element whose ladder at `p + 1` is accepted
    /// and whose trace at the quotient is not the scalar 3. `Err`
    /// only when an attempt cap runs out.
    #[verifier::loop_isolation(false)]
    pub fn generate_key(&mut self) -> (r: Result<PubKey, ()>)
        requires
            old(self).wf(),
        ensures
            r is Ok ==> {
                let pk = r->Ok_0;
                &&& spec_pubkey_ok(int_of(pk.0), int_of(pk.1), pk.2)
                &&& final(self).pub_key is Some
                &&& int_of((final(self).pub_key->0).0) == int_of(pk.0)
                &&& int_of((final(self).pub_key->0).1) == int_of(pk.1)
                &&& (final(self).pub_key->0).2.model() == pk.2.model()
            },
            final(self).wf(),
    {
        let zero = big_from_u64(0);
        let one = big_from_u64(1);
        let three = big_from_u64(3);
        let twelve = big_from_u64(12);
        let seven = big_from_u64(7);
        let two_128 = big_add(&big_from_u128(u128::MAX), &one);

        let mut rq: Option<(BigInt, BigInt)> = None;
        let mut attempt: u32 = 0;
        while rq.is_none() && attempt < GEN_ATTEMPTS
            invariant
                rq is Some ==> {
                    let (rv, qv) = rq->0;
                    &&& 0 <= int_of(rv) < 0x1_0000_0000_0000_0000_0000_0000_0000_0000int
                    &&& spec_q_form(int_of(qv), int_of(rv))
                    &&& int_of(qv) >= 7
                    &&& int_of(qv) % 12 == 7
                },
            decreases GEN_ATTEMPTS - attempt,
        {
            attempt = attempt + 1;
            let rv = big_random_range(&zero, &two_128);
            let qv = big_add(&big_sub(&big_mul(&rv, &rv), &rv), &one);
            proof {
                assert(int_of(rv) * int_of(rv) - int_of(rv) >= 0) by (nonlinear_arith)
                    requires
                        int_of(rv) >= 0,
                ;
            }
            let qm = big_rem(&qv, &twelve);
            if big_eq(&qm, &seven) && miller_rabin_test(&qv, PRIME_ROUNDS) {
                proof {
                    lemma_fundamental_div_mod(int_of(qv), 12);
                    vstd::arithmetic::div_mod::lemma_div_pos_is_pos(int_of(qv), 12);
                }
                rq = Some((rv, qv));
            }
        }
        let (rv, qv) = match rq {
            Some(x) => x,
            None => {
                return Err(());
            },
        };

        let mut pv: Option<BigInt> = None;
        let mut attempt2: u32 = 0;
        while pv.is_none() && attempt2 < GEN_ATTEMPTS
            invariant
                0 <= int_of(rv) < 0x1_0000_0000_0000_0000_0000_0000_0000_0000int,
                spec_q_form(int_of(qv), int_of(rv)),
                int_of(qv) >= 7,
                int_of(qv) % 12 == 7,
                pv is Some ==> {
                    &&& int_of((pv->0)) > 3
                    &&& int_of((pv->0)) % 3 == 2
                    &&& int_of((pv->0)) % int_of(qv) == int_of(rv) % int_of(qv)
                },
            decreases GEN_ATTEMPTS - attempt2,
        {
            attempt2 = attempt2 + 1;
            let kv = big_random_range(&zero, &two_128);
            let pc = big_add(&rv, &big_mul(&kv, &qv));
            proof {
                assert(int_of(kv) * int_of(qv) >= 0) by (nonlinear_arith)
                    requires
                        int_of(kv) >= 0,
                        int_of(qv) >= 0,
                ;
                lemma_mod_multiples_vanish(int_of(kv), int_of(rv), int_of(qv));
            }
            let pm = big_rem(&pc, &three);
            if big_eq(&pm, &big_from_u64(2)) && big_lt(&three, &pc) && miller_rabin_test(
                &pc,
                PRIME_ROUNDS,
            ) {
                pv = Some(pc);
            }
        }
        let p = match pv {
            Some(x) => x,
            None => {
                return Err(());
            },
        };

        let quotient = big_div_floor(
            &big_sub(&big_add(&big_mul(&p, &p), &one), &p),
            &qv,
        );
        proof {
            assert(int_of(p) * int_of(p) + 1 - int_of(p) >= 0) by (nonlinear_arith)
                requires
                    int_of(p) > 3,
            ;
            vstd::arithmetic::div_mod::lemma_div_pos_is_pos(
                int_of(p) * int_of(p) + 1 - int_of(p),
                int_of(qv),
            );
        }
        let three_elem = GFP2Element::new_with_val(big_clone(&p), big_from_u64(3));
        let mut tr = GFP2Traces::new(big_clone(&p));
        let mut trace: Option<GFP2Element> = None;
        let ghost mut cbase: GFP2Model = (0int, 0int);
        let mut attempt3: u32 = 0;
        while trace.is_none() && attempt3 < GEN_ATTEMPTS
            invariant
                int_of(p) > 3,
                tr.wf(),
                tr.p() == int_of(p),
                three_elem.model() == spec_elem_of_val(int_of(p), 3),
                int_of(quotient) == spec_quotient(int_of(p), int_of(qv)),
                int_of(quotient) >= 0,
                trace is Some ==> {
                    let t = trace->0;
                    &&& t.wf()
                    &&& t.p() == int_of(p)
                    &&& t.model() == spec_s(int_of(p), cbase, spec_quotient(int_of(p), int_of(qv)))
                    &&& spec_s(int_of(p), cbase, int_of(p) + 1).0 == spec_s(
                        int_of(p),
                        cbase,
                        int_of(p) + 1,
                    ).1
                    &&& t.model() != spec_elem_of_val(int_of(p), 3)
                },
            decreases GEN_ATTEMPTS - attempt3,
        {
            attempt3 = attempt3 + 1;
            let c = GFP2Element::new(big_clone(&p));
            let pp1 = big_add(&p, &one);
            let t1 = tr.calc_trace(pp1, Some(c.duplicate()));
            if t1.is_p1() {
                let tg = tr.calc_trace(big_clone(&quotient), None);
                if !tg.equals(&three_elem) {
                    proof {
                        cbase = c.model();
                    }
                    trace = Some(tg);
                }
            }
        }
        let tg = match trace {
            Some(x) => x,
            None => {
                return Err(());
            },
        };

        let published = (big_clone(&p), big_clone(&qv), tg.duplicate());
        self.pub_key = Some((p, qv, tg));
        Ok(published)
    }

    /// Draw the ElGamal secret `k` in `[2, q - 3)` and compute
    /// `Tr(g^k)` from the stored public trace.
    pub fn elgamal_key(&self) -> (r: SecretKey)
        requires
            self.wf(),
            self.pub_key is Some,
        ensures
            2 <= int_of(r.0) < int_of((self.pub_key->0).1) - 3,
            r.1.wf(),
            r.1.p() == int_of((self.pub_key->0).0),
            r.1.model() == spec_s(
                int_of((self.pub_key->0).0),
                (self.pub_key->0).2.model(),
                int_of(r.0),
            ),
    {
        let pk = match &self.pub_key {
            Some(x) => x,
            None => vstd::pervasive::unreached(),
        };
        let two = big_from_u64(2);
        let k = big_random_range(&two, &big_sub(&pk.1, &big_from_u64(3)));
        let mut tr = GFP2Traces::new(big_clone(&pk.0));
        let c = GFP2Element::new_with_coefficients(
            big_clone(&pk.0),
            (big_clone(&pk.2.coefficients.0), big_clone(&pk.2.coefficients.1)),
        );
        proof {
            lemma_small_mod(pk.2.model().0 as nat, pk.2.p() as nat);
            lemma_small_mod(pk.2.model().1 as nat, pk.2.p() as nat);
        }
        let trace_gk = tr.calc_trace(big_clone(&k), Some(c));
        (k, trace_gk)
    }

    /// Client side: draw `b` in `[2, q - 3)`, compute `Tr(g^b)` from
    /// the public trace and the key bytes from `Tr(g^k)`. Both results
    /// come from the same drawn `b`.
    pub fn symmetric_key(p: &BigInt, q: &BigInt, trace: GFP2Element, trace_k: GFP2Element) -> (r:
        SymmetricKey)
        requires
            int_of(*p) >= 1,
            int_of(*q) >= 6,
            trace.wf(),
            trace.p() == int_of(*p),
            trace_k.wf(),
            trace_k.p() == int_of(*p),
        ensures
            exists|b: int|
                2 <= b < int_of(*q) - 3 && (#[trigger] spec_s(int_of(*p), trace.model(), b))
                    == r.1.model() && r.0@ == spec_trace_bytes(int_of(*p), trace_k.model(), b),
            r.0@.len() >= 2,
            r.1.wf(),
            r.1.p() == int_of(*p),
    {
        let two = big_from_u64(2);
        let b = big_random_range(&two, &big_sub(q, &big_from_u64(3)));
        let mut tr = GFP2Traces::new(big_clone(p));
        let c = GFP2Element::new_with_coefficients(
            big_clone(p),
            (big_clone(&trace.coefficients.0), big_clone(&trace.coefficients.1)),
        );
        proof {
            lemma_small_mod(trace.model().0 as nat, trace.p() as nat);
            lemma_small_mod(trace.model().1 as nat, trace.p() as nat);
        }
        let trace_gb = tr.calc_trace(big_clone(&b), Some(c));
        let ck = GFP2Element::new_with_coefficients(
            big_clone(p),
            (big_clone(&trace_k.coefficients.0), big_clone(&trace_k.coefficients.1)),
        );
        proof {
            lemma_small_mod(trace_k.model().0 as nat, trace_k.p() as nat);
            lemma_small_mod(trace_k.model().1 as nat, trace_k.p() as nat);
        }
        let trace_gbk = tr.calc_trace(big_clone(&b), Some(ck));
        (trace_gbk.get_bytes(), trace_gb)
    }

    /// Server side: recompute the key bytes from the client's
    /// `Tr(g^b)` and the stored secret `k`.
    pub fn symmetric_key_recall(p: BigInt, k: BigInt, trace_gb: GFP2Element) -> (r: Vec<u8>)
        requires
            int_of(p) >= 1,
            int_of(k) >= 0,
            trace_gb.wf(),
            trace_gb.p() == int_of(p),
        ensures
            r@ == spec_trace_bytes(int_of(p), trace_gb.model(), int_of(k)),
            r@.len() >= 2,
    {
        let mut tr = GFP2Traces::new(big_clone(&p));
        let c = GFP2Element::new_with_coefficients(
            big_clone(&p),
            (big_clone(&trace_gb.coefficients.0), big_clone(&trace_gb.coefficients.1)),
        );
        proof {
            lemma_small_mod(trace_gb.model().0 as nat, trace_gb.p() as nat);
            lemma_small_mod(trace_gb.model().1 as nat, trace_gb.p() as nat);
        }
        tr.calc_trace(k, Some(c)).get_bytes()
    }
}

} // verus!
