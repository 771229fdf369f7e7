//! The XTR session wrapper: one instance per side carries the public
//! parameters, the side's secrets, and the derived symmetric key
//! bytes. The key wrap is a repeating-xor of those bytes — a known
//! weakness of the protocol, kept as the other side expects it — and
//! is proved to be an involution.

use vstd::prelude::*;
use num_bigint::BigInt;
use crate::bigint::{big_clone, big_from_u64, big_lt, big_eq, int_of};
use crate::gfp2::GFP2Element;
use crate::transfer::{
    block_to_bytes, bytes_to_block, lemma_block_bytes_of_block, lemma_block_of_block_bytes,
    spec_block_at, spec_block_bytes,
};
use crate::xtr::{spec_trace_bytes, XTRKeygen};

verus! {

/// The full public message of the server: `(p, q, Tr(g), Tr(g^k))`.
pub type PubKey = (BigInt, BigInt, GFP2Element, GFP2Element);

/// A byte stream xored with the repeating key bytes.
pub open spec fn spec_xor_stream(key: Seq<u8>, s: Seq<u8>) -> Seq<u8> {
    Seq::new(s.len(), |i: int| s[i] ^ key[i % key.len() as int])
}

/// A 128-bit key wrapped by the repeating-xor of the key bytes.
pub open spec fn spec_wrap_key(key: Seq<u8>, k: u128) -> u128 {
    spec_block_at(spec_xor_stream(key, spec_block_bytes(k)), 0)
}

/// One side of the key-wrap subprotocol.
pub struct XTREncryptor {
    pub p: BigInt,
    pub q: BigInt,
    pub trace: GFP2Element,
    pub trace_gk: GFP2Element,
    pub k: Option<BigInt>,
    pub trace_gb: Option<GFP2Element>,
    pub sym_key: Option<Vec<u8>>,
}

impl XTREncryptor {
    /// The parameters are usable and every stored piece lives over
    /// them.
    pub open spec fn wf(&self) -> bool {
        &&& int_of(self.p) >= 1
        &&& int_of(self.q) >= 6
        &&& self.trace.wf()
        &&& self.trace.p() == int_of(self.p)
        &&& self.trace_gk.wf()
        &&& self.trace_gk.p() == int_of(self.p)
        &&& (self.k is Some ==> int_of(self.k->0) >= 0)
        &&& (self.trace_gb is Some ==> self.trace_gb->0.wf() && self.trace_gb->0.p() == int_of(
            self.p,
        ))
        &&& (self.sym_key is Some ==> self.sym_key->0@.len() >= 1)
    }

    /// Server side: generate parameters and the ElGamal pair. `Err`
    /// only when the bounded parameter search gives up.
    pub fn new_at_server() -> (r: Result<Self, ()>)
        ensures
            r is Ok ==> {
                let s = r->Ok_0;
                &&& s.wf()
                &&& s.k is Some
                &&& s.trace_gb is None
                &&& s.sym_key is None
            },
    {
        let mut keygen = XTRKeygen::new();
        let pk = match keygen.generate_key() {
            Ok(x) => x,
            Err(()) => {
                return Err(());
            },
        };
        let (k, trace_gk) = keygen.elgamal_key();
        let (p, q, trace) = pk;
        Ok(
            XTREncryptor {
                p,
                q,
                trace,
                trace_gk,
                k: Some(k),
                trace_gb: None,
                sym_key: None,
            },
        )
    }

    /// The message the server publishes to the client.
    pub fn share_public_key_with_client(&self) -> (r: PubKey)
        requires
            self.wf(),
        ensures
            int_of(r.0) == int_of(self.p),
            int_of(r.1) == int_of(self.q),
            r.2.model() == self.trace.model(),
            r.2.p() == int_of(self.p),
            r.2.wf(),
            r.3.model() == self.trace_gk.model(),
            r.3.p() == int_of(self.p),
            r.3.wf(),
    {
        (
            big_clone(&self.p),
            big_clone(&self.q),
            self.trace.duplicate(),
            self.trace_gk.duplicate(),
        )
    }

    /// Whether a received public message is usable: positive
    /// parameters and both traces reduced over `p`. The client checks
    /// this before deriving.
    pub fn validate_pub_key(pub_key: &PubKey) -> (r: bool)
        ensures
            r <==> {
                &&& int_of(pub_key.0) >= 1
                &&& int_of(pub_key.1) >= 6
                &&& pub_key.2.wf()
                &&& pub_key.2.p() == int_of(pub_key.0)
                &&& pub_key.3.wf()
                &&& pub_key.3.p() == int_of(pub_key.0)
            },
    {
        let one = big_from_u64(1);
        let six = big_from_u64(6);
        let zero = big_from_u64(0);
        let p_pos = !big_lt(&pub_key.0, &one);
        let q_ok = !big_lt(&pub_key.1, &six);
        let t = &pub_key.2;
        let tk = &pub_key.3;
        let t_ok = big_eq(&t.prime, &pub_key.0) && !big_lt(&t.coefficients.0, &zero) && big_lt(
            &t.coefficients.0,
            &pub_key.0,
        ) && !big_lt(&t.coefficients.1, &zero) && big_lt(&t.coefficients.1, &pub_key.0);
        let tk_ok = big_eq(&tk.prime, &pub_key.0) && !big_lt(&tk.coefficients.0, &zero) && big_lt(
            &tk.coefficients.0,
            &pub_key.0,
        ) && !big_lt(&tk.coefficients.1, &zero) && big_lt(&tk.coefficients.1, &pub_key.0);
        p_pos && q_ok && t_ok && tk_ok
    }

    /// Client side: derive `Tr(g^b)` and the symmetric key bytes from
    /// the received parameters.
    pub fn new_at_client(pub_key: PubKey) -> (r: Self)
        requires
            int_of(pub_key.0) >= 1,
            int_of(pub_key.1) >= 6,
            pub_key.2.wf(),
            pub_key.2.p() == int_of(pub_key.0),
            pub_key.3.wf(),
            pub_key.3.p() == int_of(pub_key.0),
        ensures
            r.wf(),
            r.k is None,
            r.trace_gb is Some,
            r.sym_key is Some,
            exists|b: int|
                2 <= b < int_of(pub_key.1) - 3 && (#[trigger] crate::traces::spec_s(
                    int_of(pub_key.0),
                    pub_key.2.model(),
                    b,
                )) == r.trace_gb->0.model() && r.sym_key->0@ == spec_trace_bytes(
                    int_of(pub_key.0),
                    pub_key.3.model(),
                    b,
                ),
    {
        let (p, q, trace, trace_gk) = pub_key;
        let (sym_key, trace_gb) = XTRKeygen::symmetric_key(
            &p,
            &q,
            trace.duplicate(),
            trace_gk.duplicate(),
        );
        XTREncryptor {
            p,
            q,
            trace,
            trace_gk,
            k: None,
            trace_gb: Some(trace_gb),
            sym_key: Some(sym_key),
        }
    }

    /// The client's reply: its `Tr(g^b)`.
    pub fn share_trace_with_server(&self) -> (r: GFP2Element)
        requires
            self.trace_gb is Some,
        ensures
            r.model() == self.trace_gb->0.model(),
            r.p() == self.trace_gb->0.p(),
    {
        match &self.trace_gb {
            Some(t) => t.duplicate(),
            None => vstd::pervasive::unreached(),
        }
    }

    /// Server side: recompute the symmetric key bytes from the
    /// client's `Tr(g^b)` and the stored secret.
    pub fn derive_sym_key_at_server(&mut self, trace_gb: GFP2Element)
        requires
            old(self).wf(),
            old(self).k is Some,
            trace_gb.wf(),
            trace_gb.p() == int_of(old(self).p),
        ensures
            final(self).wf(),
            final(self).sym_key is Some,
            final(self).sym_key->0@ == spec_trace_bytes(
                int_of(old(self).p),
                trace_gb.model(),
                int_of(old(self).k->0),
            ),
            int_of(final(self).p) == int_of(old(self).p),
            final(self).k == old(self).k,
            final(self).trace == old(self).trace,
            final(self).trace_gk == old(self).trace_gk,
    {
        let k = match &self.k {
            Some(k) => big_clone(k),
            None => vstd::pervasive::unreached(),
        };
        let key = XTRKeygen::symmetric_key_recall(
            big_clone(&self.p),
            k,
            trace_gb.duplicate(),
        );
        self.trace_gb = Some(trace_gb);
        self.sym_key = Some(key);
    }

    /// Xor the input with the repeating symmetric key bytes: the wrap
    /// and the unwrap are the same operation.
    pub fn encrypt(&self, input: &Vec<u8>) -> (r: Vec<u8>)
        requires
            self.sym_key is Some,
            self.sym_key->0@.len() >= 1,
        ensures
            r@ == spec_xor_stream(self.sym_key->0@, input@),
    {
        let key = match &self.sym_key {
            Some(k) => k,
            None => vstd::pervasive::unreached(),
        };
        let mut out: Vec<u8> = Vec::new();
        let n = input.len();
        for i in 0..n
            invariant
                n == input@.len(),
                key@ == self.sym_key->0@,
                key@.len() >= 1,
                out@.len() == i,
                forall|j: int| 0 <= j < i ==> out@[j] == spec_xor_stream(key@, input@)[j],
        {
            out.push(input[i] ^ key[i % key.len()]);
        }
        proof {
            assert(out@ =~= spec_xor_stream(self.sym_key->0@, input@));
        }
        out
    }

    /// Wrap the 128-bit cipher key: its big-endian bytes xored with
    /// the repeating key stream, read back as one block.
    pub fn encrypt_deal128_key(&self, key: u128) -> (r: u128)
        requires
            self.sym_key is Some,
            self.sym_key->0@.len() >= 1,
        ensures
            r == spec_wrap_key(self.sym_key->0@, key),
    {
        let enc = self.encrypt(&block_to_bytes(key));
        bytes_to_block(&enc)
    }
}

/// Xor by the same byte twice is the identity.
proof fn lemma_xor_cancel8()
    by (bit_vector)
    ensures
        forall|a: u8, b: u8| #[trigger] ((a ^ b) ^ b) == a,
{
}

/// Xoring with the repeating key stream twice gives the input back:
/// the wrap both sides perform is an involution.
pub proof fn lemma_xor_stream_involution(key: Seq<u8>, s: Seq<u8>)
    requires
        key.len() > 0,
    ensures
        spec_xor_stream(key, spec_xor_stream(key, s)) == s,
{
    lemma_xor_cancel8();
    assert(spec_xor_stream(key, spec_xor_stream(key, s)) =~= s);
}

/// Wrapping a 128-bit key twice with the same key bytes gives the key
/// back: the client's wrap and the server's unwrap agree.
pub proof fn lemma_key_wrap_involution(key: Seq<u8>, k: u128)
    requires
        key.len() > 0,
    ensures
        spec_wrap_key(key, spec_wrap_key(key, k)) == k,
{
    let b = spec_block_bytes(k);
    let e1 = spec_xor_stream(key, b);
    let w1 = spec_block_at(e1, 0);
    lemma_block_bytes_of_block(e1, 0);
    assert(e1.subrange(0, 16) =~= e1);
    lemma_xor_stream_involution(key, b);
    lemma_block_of_block_bytes(k);
}

} // verus!
