//! Streaming modes over the DEAL-128 block cipher: ECB, CBC, CFB, OFB,
//! CTR, RD (randomized delta) and RDH (randomized delta with an
//! integrity hash). Each mode's ciphertext layout is given as a spec
//! function of the key, the drawn initialization value and the
//! plaintext, and a proved lemma states the round trip for every mode.

use vstd::prelude::*;
use crate::deal::{
    spec_deal_decrypt, spec_deal_encrypt, spec_hi64, spec_lo64, spec_round_keys, DEAL128,
};
use crate::rng::random_u128;

verus! {

/// Offset basis of the 64-bit FNV-1a hash.
pub const FNV_OFFSET: u64 = 0xcbf2_9ce4_8422_2325;

/// Multiplier of the 64-bit FNV-1a hash.
pub const FNV_PRIME: u64 = 0x0000_0100_0000_01b3;

/// One 128-bit block folded into the running hash state, half by half.
pub open spec fn spec_hash_step(h: u64, b: u128) -> u64 {
    ((h ^ spec_hi64(b)).wrapping_mul(FNV_PRIME) ^ spec_lo64(b)).wrapping_mul(FNV_PRIME)
}

/// Hash state after folding in the first `n` blocks of `s`.
pub open spec fn spec_hash64_prefix(s: Seq<u128>, n: int) -> u64
    decreases n,
{
    if n <= 0 {
        FNV_OFFSET
    } else {
        spec_hash_step(spec_hash64_prefix(s, n - 1), s[n - 1])
    }
}

/// The 64-bit non-cryptographic hash of a block sequence used by RDH.
pub open spec fn spec_hash64(s: Seq<u128>) -> u64 {
    spec_hash64_prefix(s, s.len() as int)
}

/// The RDH/RD tamper-evidence hash of a plaintext block sequence.
pub fn hash64(s: &Vec<u128>) -> (r: u64)
    ensures
        r == spec_hash64(s@),
{
    let mut h = FNV_OFFSET;
    for i in 0..s.len()
        invariant
            h == spec_hash64_prefix(s@, i as int),
    {
        let b = s[i];
        h = ((h ^ (b >> 64) as u64).wrapping_mul(FNV_PRIME) ^ b as u64).wrapping_mul(FNV_PRIME);
    }
    h
}

/// The block offset `IV + delta * (i + 1)` of the randomized-delta
/// modes, with `delta` the low 64 bits of the IV; wrapping keeps the
/// computation total on corrupted headers.
pub open spec fn spec_rd_offset(iv: u128, i: int) -> u128 {
    iv.wrapping_add(((iv as u64) as u128).wrapping_mul((i + 1) as u128))
}

/// Ciphertext block `i` of CBC mode (block 0 is the IV itself).
pub open spec fn spec_cbc_block(rks: Seq<u64>, iv: u128, s: Seq<u128>, i: int) -> u128
    decreases i,
{
    if i <= 0 {
        iv
    } else {
        spec_deal_encrypt(rks, s[i - 1] ^ spec_cbc_block(rks, iv, s, i - 1))
    }
}

/// Ciphertext block `i` of CFB mode (block 0 is the IV itself).
pub open spec fn spec_cfb_block(rks: Seq<u64>, iv: u128, s: Seq<u128>, i: int) -> u128
    decreases i,
{
    if i <= 0 {
        iv
    } else {
        spec_deal_encrypt(rks, spec_cfb_block(rks, iv, s, i - 1)) ^ s[i - 1]
    }
}

/// Keystream word `i` of OFB mode: the IV encrypted `i + 1` times.
pub open spec fn spec_ofb_ks(rks: Seq<u64>, iv: u128, i: int) -> u128
    decreases i,
{
    if i <= 0 {
        spec_deal_encrypt(rks, iv)
    } else {
        spec_deal_encrypt(rks, spec_ofb_ks(rks, iv, i - 1))
    }
}

/// The DEAL streaming modes.
pub enum DEALMode {
    ECB,
    CBC,
    CFB,
    OFB,
    CTR,
    RD,
    RDH,
}

/// Ciphertext of `mode` under `key` with initialization value `iv`,
/// block by block.
pub open spec fn spec_mode_encrypt(mode: DEALMode, key: u128, iv: u128, s: Seq<u128>) -> Seq<
    u128,
> {
    let rks = spec_round_keys(key);
    match mode {
        DEALMode::ECB => Seq::new(s.len(), |i: int| spec_deal_encrypt(rks, s[i])),
        DEALMode::CBC => Seq::new((s.len() + 1) as nat, |i: int| spec_cbc_block(rks, iv, s, i)),
        DEALMode::CFB => Seq::new((s.len() + 1) as nat, |i: int| spec_cfb_block(rks, iv, s, i)),
        DEALMode::OFB => Seq::new(
            (s.len() + 1) as nat,
            |i: int|
                if i == 0 {
                    iv
                } else {
                    s[i - 1] ^ spec_ofb_ks(rks, iv, i - 1)
                },
        ),
        DEALMode::CTR => Seq::new(
            (s.len() + 1) as nat,
            |i: int|
                if i == 0 {
                    iv
                } else {
                    s[i - 1] ^ spec_deal_encrypt(rks, iv ^ (i as u128))
                },
        ),
        DEALMode::RD => Seq::new(
            (s.len() + 1) as nat,
            |i: int|
                if i == 0 {
                    spec_deal_encrypt(rks, iv)
                } else {
                    spec_deal_encrypt(rks, s[i - 1] ^ spec_rd_offset(iv, i - 1))
                },
        ),
        DEALMode::RDH => Seq::new(
            (s.len() + 2) as nat,
            |i: int|
                if i == 0 {
                    spec_deal_encrypt(rks, iv)
                } else if i == 1 {
                    spec_deal_encrypt(rks, (spec_hash64(s) as u128) ^ iv)
                } else {
                    spec_deal_encrypt(rks, s[i - 2] ^ spec_rd_offset(iv, i - 2))
                },
        ),
    }
}

/// Plaintext recovered by `mode` under `key` from ciphertext `s`;
/// RDH reports a failed integrity check as `Err`.
pub open spec fn spec_mode_decrypt(mode: DEALMode, key: u128, s: Seq<u128>) -> Result<
    Seq<u128>,
    (),
> {
    let rks = spec_round_keys(key);
    match mode {
        DEALMode::ECB => Ok(Seq::new(s.len(), |i: int| spec_deal_decrypt(rks, s[i]))),
        DEALMode::CBC => Ok(
            Seq::new((s.len() - 1) as nat, |i: int| spec_deal_decrypt(rks, s[i + 1]) ^ s[i]),
        ),
        DEALMode::CFB => Ok(
            Seq::new((s.len() - 1) as nat, |i: int| spec_deal_encrypt(rks, s[i]) ^ s[i + 1]),
        ),
        DEALMode::OFB => Ok(
            Seq::new((s.len() - 1) as nat, |i: int| s[i + 1] ^ spec_ofb_ks(rks, s[0], i)),
        ),
        DEALMode::CTR => Ok(
            Seq::new(
                (s.len() - 1) as nat,
                |i: int| s[i + 1] ^ spec_deal_encrypt(rks, s[0] ^ ((i + 1) as u128)),
            ),
        ),
        DEALMode::RD => {
            let iv = spec_deal_decrypt(rks, s[0]);
            Ok(
                Seq::new(
                    (s.len() - 1) as nat,
                    |i: int| spec_deal_decrypt(rks, s[i + 1]) ^ spec_rd_offset(iv, i),
                ),
            )
        },
        DEALMode::RDH => {
            let iv = spec_deal_decrypt(rks, s[0]);
            let in_hash = spec_deal_decrypt(rks, s[1]) ^ iv;
            let payload = Seq::new(
                (s.len() - 2) as nat,
                |i: int| spec_deal_decrypt(rks, s[i + 2]) ^ spec_rd_offset(iv, i),
            );
            if (spec_hash64(payload) as u128) == in_hash {
                Ok(payload)
            } else {
                Err(())
            }
        },
    }
}

impl DEALMode {
    /// The ciphertext lengths this mode can decrypt: the chaining and
    /// randomized modes need their header blocks present.
    pub open spec fn ct_len_ok(&self, len: nat) -> bool {
        match *self {
            DEALMode::ECB => true,
            DEALMode::RDH => len >= 2,
            _ => len >= 1,
        }
    }

    /// Encrypt a block sequence; the IV is drawn fresh with its top
    /// bit cleared, so the result is pinned for that drawn IV.
    #[verifier::loop_isolation(false)]
    pub fn encrypt(&self, input: Vec<u128>, key: u128) -> (r: Vec<u128>)
        requires
            input@.len() + 2 <= usize::MAX,
        ensures
            exists|iv: u128|
                iv < (1u128 << 127) && r@ == spec_mode_encrypt(*self, key, iv, input@),
    {
        let iv = random_u128() >> 1;
        proof {
            assert(forall|x: u128| #[trigger] (x >> 1u128) < (1u128 << 127)) by (bit_vector);
        }
        let deal = DEAL128::with_key(key);
        let ghost rks = spec_round_keys(key);
        let ghost target = spec_mode_encrypt(*self, key, iv, input@);
        let n = input.len();
        let mut out: Vec<u128> = Vec::new();
        match self {
            DEALMode::ECB => {
                for i in 0..n
                    invariant
                        n == input@.len(),
                        deal.round_keys@ == rks,
                        target == spec_mode_encrypt(DEALMode::ECB, key, iv, input@),
                        out@.len() == i,
                        forall|j: int| 0 <= j < i ==> out@[j] == target[j],
                {
                    out.push(deal.encrypt(input[i]));
                }
            },
            DEALMode::CBC => {
                out.push(iv);
                for i in 0..n
                    invariant
                        n == input@.len(),
                        deal.round_keys@ == rks,
                        target == spec_mode_encrypt(DEALMode::CBC, key, iv, input@),
                        out@.len() == i + 1,
                        forall|j: int| 0 <= j <= i ==> out@[j] == spec_cbc_block(
                            rks,
                            iv,
                            input@,
                            j,
                        ),
                {
                    let prev = out[i];
                    out.push(deal.encrypt(input[i] ^ prev));
                }
                proof {
                    assert(forall|j: int| 0 <= j < target.len() ==> out@[j] == target[j]);
                }
            },
            DEALMode::CFB => {
                out.push(iv);
                for i in 0..n
                    invariant
                        n == input@.len(),
                        deal.round_keys@ == rks,
                        target == spec_mode_encrypt(DEALMode::CFB, key, iv, input@),
                        out@.len() == i + 1,
                        forall|j: int| 0 <= j <= i ==> out@[j] == spec_cfb_block(
                            rks,
                            iv,
                            input@,
                            j,
                        ),
                {
                    let prev = out[i];
                    out.push(deal.encrypt(prev) ^ input[i]);
                }
                proof {
                    assert(forall|j: int| 0 <= j < target.len() ==> out@[j] == target[j]);
                }
            },
            DEALMode::OFB => {
                out.push(iv);
                let mut last = deal.encrypt(iv);
                for i in 0..n
                    invariant
                        n == input@.len(),
                        deal.round_keys@ == rks,
                        target == spec_mode_encrypt(DEALMode::OFB, key, iv, input@),
                        last == spec_ofb_ks(rks, iv, i as int),
                        out@.len() == i + 1,
                        forall|j: int| 0 <= j <= i ==> out@[j] == target[j],
                {
                    out.push(input[i] ^ last);
                    last = deal.encrypt(last);
                }
            },
            DEALMode::CTR => {
                out.push(iv);
                for i in 0..n
                    invariant
                        n == input@.len(),
                        deal.round_keys@ == rks,
                        target == spec_mode_encrypt(DEALMode::CTR, key, iv, input@),
                        out@.len() == i + 1,
                        forall|j: int| 0 <= j <= i ==> out@[j] == target[j],
                {
                    out.push(input[i] ^ deal.encrypt(iv ^ (i as u128 + 1)));
                }
            },
            DEALMode::RD => {
                out.push(deal.encrypt(iv));
                let delta = iv as u64 as u128;
                for i in 0..n
                    invariant
                        n == input@.len(),
                        deal.round_keys@ == rks,
                        delta == (iv as u64) as u128,
                        target == spec_mode_encrypt(DEALMode::RD, key, iv, input@),
                        out@.len() == i + 1,
                        forall|j: int| 0 <= j <= i ==> out@[j] == target[j],
                {
                    let off = iv.wrapping_add(delta.wrapping_mul(i as u128 + 1));
                    out.push(deal.encrypt(input[i] ^ off));
                }
            },
            DEALMode::RDH => {
                let hash = hash64(&input) as u128;
                out.push(deal.encrypt(iv));
                out.push(deal.encrypt(hash ^ iv));
                let delta = iv as u64 as u128;
                for i in 0..n
                    invariant
                        n == input@.len(),
                        deal.round_keys@ == rks,
                        delta == (iv as u64) as u128,
                        target == spec_mode_encrypt(DEALMode::RDH, key, iv, input@),
                        out@.len() == i + 2,
                        forall|j: int| 0 <= j <= i + 1 ==> out@[j] == target[j],
                {
                    let off = iv.wrapping_add(delta.wrapping_mul(i as u128 + 1));
                    out.push(deal.encrypt(input[i] ^ off));
                }
            },
        }
        proof {
            assert(out@ =~= target);
        }
        out
    }

    /// Decrypt a block sequence; only RDH can fail, and does exactly
    /// when the recomputed hash differs from the decoded header.
    #[verifier::loop_isolation(false)]
    pub fn decrypt(&self, input: Vec<u128>, key: u128) -> (r: Result<Vec<u128>, ()>)
        requires
            self.ct_len_ok(input@.len()),
        ensures
            r is Ok <==> spec_mode_decrypt(*self, key, input@) is Ok,
            r is Ok ==> r->Ok_0@ == spec_mode_decrypt(*self, key, input@)->Ok_0,
    {
        let deal = DEAL128::with_key(key);
        let ghost rks = spec_round_keys(key);
        let n = input.len();
        let mut out: Vec<u128> = Vec::new();
        match self {
            DEALMode::ECB => {
                let ghost target = spec_mode_decrypt(DEALMode::ECB, key, input@)->Ok_0;
                for i in 0..n
                    invariant
                        n == input@.len(),
                        deal.round_keys@ == rks,
                        target == spec_mode_decrypt(DEALMode::ECB, key, input@)->Ok_0,
                        out@.len() == i,
                        forall|j: int| 0 <= j < i ==> out@[j] == target[j],
                {
                    out.push(deal.decrypt(input[i]));
                }
                proof {
                    assert(out@ =~= target);
                }
                Ok(out)
            },
            DEALMode::CBC => {
                let ghost target = spec_mode_decrypt(DEALMode::CBC, key, input@)->Ok_0;
                for i in 1..n
                    invariant
                        1 <= n == input@.len(),
                        deal.round_keys@ == rks,
                        target == spec_mode_decrypt(DEALMode::CBC, key, input@)->Ok_0,
                        out@.len() == i - 1,
                        forall|j: int| 0 <= j < i - 1 ==> out@[j] == target[j],
                {
                    out.push(deal.decrypt(input[i]) ^ input[i - 1]);
                }
                proof {
                    assert(out@ =~= target);
                }
                Ok(out)
            },
            DEALMode::CFB => {
                let ghost target = spec_mode_decrypt(DEALMode::CFB, key, input@)->Ok_0;
                for i in 1..n
                    invariant
                        1 <= n == input@.len(),
                        deal.round_keys@ == rks,
                        target == spec_mode_decrypt(DEALMode::CFB, key, input@)->Ok_0,
                        out@.len() == i - 1,
                        forall|j: int| 0 <= j < i - 1 ==> out@[j] == target[j],
                {
                    out.push(deal.encrypt(input[i - 1]) ^ input[i]);
                }
                proof {
                    assert(out@ =~= target);
                }
                Ok(out)
            },
            DEALMode::OFB => {
                let ghost target = spec_mode_decrypt(DEALMode::OFB, key, input@)->Ok_0;
                let mut last = deal.encrypt(input[0]);
                for i in 1..n
                    invariant
                        1 <= n == input@.len(),
                        deal.round_keys@ == rks,
                        target == spec_mode_decrypt(DEALMode::OFB, key, input@)->Ok_0,
                        last == spec_ofb_ks(rks, input@[0], i - 1),
                        out@.len() == i - 1,
                        forall|j: int| 0 <= j < i - 1 ==> out@[j] == target[j],
                {
                    out.push(input[i] ^ last);
                    last = deal.encrypt(last);
                }
                proof {
                    assert(out@ =~= target);
                }
                Ok(out)
            },
            DEALMode::CTR => {
                let ghost target = spec_mode_decrypt(DEALMode::CTR, key, input@)->Ok_0;
                let iv = input[0];
                for i in 1..n
                    invariant
                        1 <= n == input@.len(),
                        deal.round_keys@ == rks,
                        iv == input@[0],
                        target == spec_mode_decrypt(DEALMode::CTR, key, input@)->Ok_0,
                        out@.len() == i - 1,
                        forall|j: int| 0 <= j < i - 1 ==> out@[j] == target[j],
                {
                    out.push(input[i] ^ deal.encrypt(iv ^ (i as u128)));
                }
                proof {
                    assert(out@ =~= target);
                }
                Ok(out)
            },
            DEALMode::RD => {
                let ghost target = spec_mode_decrypt(DEALMode::RD, key, input@)->Ok_0;
                let iv = deal.decrypt(input[0]);
                let delta = iv as u64 as u128;
                for i in 1..n
                    invariant
                        1 <= n == input@.len(),
                        deal.round_keys@ == rks,
                        iv == spec_deal_decrypt(rks, input@[0]),
                        delta == (iv as u64) as u128,
                        target == spec_mode_decrypt(DEALMode::RD, key, input@)->Ok_0,
                        out@.len() == i - 1,
                        forall|j: int| 0 <= j < i - 1 ==> out@[j] == target[j],
                {
                    let off = iv.wrapping_add(delta.wrapping_mul(i as u128));
                    out.push(deal.decrypt(input[i]) ^ off);
                }
                proof {
                    assert(out@ =~= target);
                }
                Ok(out)
            },
            DEALMode::RDH => {
                let iv = deal.decrypt(input[0]);
                let delta = iv as u64 as u128;
                let in_hash = deal.decrypt(input[1]) ^ iv;
                let ghost sr = spec_mode_decrypt(DEALMode::RDH, key, input@);
                let ghost payload = Seq::new(
                    (input@.len() - 2) as nat,
                    |i: int| spec_deal_decrypt(rks, input@[i + 2]) ^ spec_rd_offset(
                        spec_deal_decrypt(rks, input@[0]),
                        i,
                    ),
                );
                for i in 2..n
                    invariant
                        2 <= n == input@.len(),
                        deal.round_keys@ == rks,
                        iv == spec_deal_decrypt(rks, input@[0]),
                        delta == (iv as u64) as u128,
                        payload == Seq::new(
                            (input@.len() - 2) as nat,
                            |i: int| spec_deal_decrypt(rks, input@[i + 2]) ^ spec_rd_offset(
                                spec_deal_decrypt(rks, input@[0]),
                                i,
                            ),
                        ),
                        out@.len() == i - 2,
                        forall|j: int| 0 <= j < i - 2 ==> out@[j] == payload[j],
                {
                    let off = iv.wrapping_add(delta.wrapping_mul(i as u128 - 1));
                    out.push(deal.decrypt(input[i]) ^ off);
                }
                proof {
                    assert(out@ =~= payload);
                }
                let out_hash = hash64(&out) as u128;
                if out_hash == in_hash {
                    Ok(out)
                } else {
                    Err(())
                }
            },
        }
    }
}

/// Xor by the same 128-bit word twice is the identity.
proof fn lemma_xor_cancel128()
    by (bit_vector)
    ensures
        forall|a: u128, b: u128| #[trigger] ((a ^ b) ^ b) == a,
        forall|a: u128, b: u128| #[trigger] (b ^ (b ^ a)) == a,
{
}

/// Every DEAL mode round-trips: decrypting what `spec_mode_encrypt`
/// produced recovers the plaintext block sequence exactly, for every
/// key, every initialization value and every plaintext.
pub proof fn lemma_mode_round_trip(mode: DEALMode, key: u128, iv: u128, s: Seq<u128>)
    ensures
        spec_mode_decrypt(mode, key, spec_mode_encrypt(mode, key, iv, s)) == Ok::<_, ()>(s),
{
    let rks = spec_round_keys(key);
    let c = spec_mode_encrypt(mode, key, iv, s);
    lemma_xor_cancel128();
    assert forall|b: u128| #[trigger] spec_deal_decrypt(rks, spec_deal_encrypt(rks, b)) == b by {
        crate::deal::lemma_deal128_round_trip(key, b);
    }
    match mode {
        DEALMode::ECB => {
            assert(spec_mode_decrypt(mode, key, c)->Ok_0 =~= s);
        },
        DEALMode::CBC => {
            assert(spec_mode_decrypt(mode, key, c)->Ok_0 =~= s);
        },
        DEALMode::CFB => {
            assert(spec_mode_decrypt(mode, key, c)->Ok_0 =~= s);
        },
        DEALMode::OFB => {
            assert(spec_mode_decrypt(mode, key, c)->Ok_0 =~= s);
        },
        DEALMode::CTR => {
            assert(spec_mode_decrypt(mode, key, c)->Ok_0 =~= s);
        },
        DEALMode::RD => {
            assert(spec_deal_decrypt(rks, c[0]) == iv);
            assert(spec_mode_decrypt(mode, key, c)->Ok_0 =~= s);
        },
        DEALMode::RDH => {
            assert(spec_deal_decrypt(rks, c[0]) == iv);
            let in_hash = spec_deal_decrypt(rks, c[1]) ^ iv;
            assert(in_hash == spec_hash64(s) as u128);
            let payload = Seq::new(
                (c.len() - 2) as nat,
                |i: int| spec_deal_decrypt(rks, c[i + 2]) ^ spec_rd_offset(iv, i),
            );
            assert(payload =~= s);
        },
    }
}

/// RDH tamper evidence: replacing one ciphertext payload block (past
/// the two header blocks) by a different value is never silent — when
/// the tampered stream still decrypts, its plaintext differs from the
/// untampered one. Whether the integrity hash catches the change is a
/// probabilistic matter and is exercised by tests.
pub proof fn lemma_rdh_tamper_not_silent(key: u128, c: Seq<u128>, i: int, v: u128)
    requires
        c.len() >= 2,
        2 <= i < c.len(),
        v != c[i],
    ensures
        ({
            let orig = spec_mode_decrypt(DEALMode::RDH, key, c);
            let tam = spec_mode_decrypt(DEALMode::RDH, key, c.update(i, v));
            orig is Ok && tam is Ok ==> tam->Ok_0 != orig->Ok_0
        }),
{
    let rks = spec_round_keys(key);
    let t = c.update(i, v);
    let iv = spec_deal_decrypt(rks, c[0]);
    lemma_xor_cancel128();
    assert(spec_deal_decrypt(rks, c[i]) != spec_deal_decrypt(rks, v)) by {
        if spec_deal_decrypt(rks, c[i]) == spec_deal_decrypt(rks, v) {
            crate::deal::lemma_deal128_decrypt_injective(key, c[i], v);
        }
    }
    let p_orig = Seq::new(
        (c.len() - 2) as nat,
        |j: int| spec_deal_decrypt(rks, c[j + 2]) ^ spec_rd_offset(iv, j),
    );
    let p_tam = Seq::new(
        (t.len() - 2) as nat,
        |j: int| spec_deal_decrypt(rks, t[j + 2]) ^ spec_rd_offset(iv, j),
    );
    assert(spec_deal_decrypt(rks, c[i]) ^ spec_rd_offset(iv, i - 2) != spec_deal_decrypt(rks, v)
        ^ spec_rd_offset(iv, i - 2)) by {
        let dc = spec_deal_decrypt(rks, c[i]);
        let dv = spec_deal_decrypt(rks, v);
        let off = spec_rd_offset(iv, i - 2);
        assert((dc ^ off) ^ off == dc);
        assert((dv ^ off) ^ off == dv);
    }
    assert(p_tam[i - 2] != p_orig[i - 2]);
}

} // verus!
