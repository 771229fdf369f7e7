//! DEAL-128: a six-round Feistel cipher on 128-bit blocks with DES as
//! the round function. The round-key schedule is keyed by a fixed DES
//! key and is part of the cipher's public description.

use vstd::prelude::*;
use crate::des::{spec_des_encrypt, DES};
use crate::rng::random_u128;

verus! {

/// The fixed DES key under which every scheduled round key is
/// encrypted once.
pub const DEAL_SCHEDULE_KEY: u64 = 0x0123_4567_89ab_cdef;

/// High 64 bits of a 128-bit block.
pub open spec fn spec_hi64(x: u128) -> u64 {
    (x >> 64u128) as u64
}

/// Low 64 bits of a 128-bit block.
pub open spec fn spec_lo64(x: u128) -> u64 {
    x as u64
}

/// The 128-bit block with high half `h` and low half `l`.
pub open spec fn spec_join(h: u64, l: u64) -> u128 {
    ((h as u128) << 64u128) | (l as u128)
}

/// The single bit at 1-based position `i` of a 64-bit word, counted
/// from the left.
pub open spec fn spec_bit_at(i: u8) -> u64 {
    1u64 << ((64 - i) as u64)
}

/// The six DEAL round keys: an alternating xor chain over the two key
/// halves with round constants, each result DES-encrypted under the
/// fixed schedule key.
pub open spec fn spec_round_keys(key: u128) -> Seq<u64> {
    let k0 = spec_hi64(key);
    let k1 = spec_lo64(key);
    let r0 = k0;
    let r1 = k1 ^ r0;
    let r2 = k0 ^ r1 ^ spec_bit_at(1);
    let r3 = k1 ^ r2 ^ spec_bit_at(2);
    let r4 = k0 ^ r3 ^ spec_bit_at(4);
    let r5 = k1 ^ r4 ^ spec_bit_at(8);
    seq![
        spec_des_encrypt(DEAL_SCHEDULE_KEY, r0),
        spec_des_encrypt(DEAL_SCHEDULE_KEY, r1),
        spec_des_encrypt(DEAL_SCHEDULE_KEY, r2),
        spec_des_encrypt(DEAL_SCHEDULE_KEY, r3),
        spec_des_encrypt(DEAL_SCHEDULE_KEY, r4),
        spec_des_encrypt(DEAL_SCHEDULE_KEY, r5),
    ]
}

pub fn get_bit_at(i: u8) -> (r: u64)
    requires
        1 <= i <= 64,
    ensures
        r == spec_bit_at(i),
{
    1u64 << (64 - i) as u64
}

pub fn get_round_keys(key: u128) -> (rk: [u64; 6])
    ensures
        rk@ == spec_round_keys(key),
{
    let k0 = (key >> 64) as u64;
    let k1 = key as u64;
    let r0 = k0;
    let r1 = k1 ^ r0;
    let r2 = k0 ^ r1 ^ get_bit_at(1);
    let r3 = k1 ^ r2 ^ get_bit_at(2);
    let r4 = k0 ^ r3 ^ get_bit_at(4);
    let r5 = k1 ^ r4 ^ get_bit_at(8);
    let c = DES::new(DEAL_SCHEDULE_KEY);
    let rk = [
        c.encrypt(r0),
        c.encrypt(r1),
        c.encrypt(r2),
        c.encrypt(r3),
        c.encrypt(r4),
        c.encrypt(r5),
    ];
    proof {
        assert(rk@ =~= spec_round_keys(key));
    }
    rk
}

/// The Feistel state after `n` encryption rounds under round keys `rks`.
pub open spec fn spec_enc_rounds(rks: Seq<u64>, x: (u64, u64), n: int) -> (u64, u64)
    decreases n,
{
    if n <= 0 {
        x
    } else {
        let p = spec_enc_rounds(rks, x, n - 1);
        (spec_des_encrypt(rks[n - 1], p.0) ^ p.1, p.0)
    }
}

/// The Feistel state after `n` decryption rounds: round `n` uses round
/// key `6 - n`, undoing the encryption rounds in reverse order.
pub open spec fn spec_dec_rounds(rks: Seq<u64>, x: (u64, u64), n: int) -> (u64, u64)
    decreases n,
{
    if n <= 0 {
        x
    } else {
        let p = spec_dec_rounds(rks, x, n - 1);
        (p.1, spec_des_encrypt(rks[6 - n], p.1) ^ p.0)
    }
}

/// DEAL-128 encryption of one block under the given round keys.
pub open spec fn spec_deal_encrypt(rks: Seq<u64>, input: u128) -> u128 {
    let x = spec_enc_rounds(rks, (spec_hi64(input), spec_lo64(input)), 6);
    spec_join(x.0, x.1)
}

/// DEAL-128 decryption of one block under the given round keys.
pub open spec fn spec_deal_decrypt(rks: Seq<u64>, input: u128) -> u128 {
    let x = spec_dec_rounds(rks, (spec_hi64(input), spec_lo64(input)), 6);
    spec_join(x.0, x.1)
}

/// The DEAL-128 cipher instance: six scheduled round keys.
#[derive(Copy, Clone, Debug, Default)]
pub struct DEAL128 {
    pub round_keys: [u64; 6],
}

impl DEAL128 {
    /// A fresh random 128-bit key.
    pub fn generate_key() -> u128 {
        random_u128()
    }

    pub fn with_key(key: u128) -> (r: Self)
        ensures
            r.round_keys@ == spec_round_keys(key),
    {
        DEAL128 { round_keys: get_round_keys(key) }
    }

    pub fn encrypt(&self, input: u128) -> (r: u128)
        ensures
            r == spec_deal_encrypt(self.round_keys@, input),
    {
        let mut x0 = (input >> 64) as u64;
        let mut x1 = input as u64;
        for i in 0..6usize
            invariant
                x0 == spec_enc_rounds(
                    self.round_keys@,
                    (spec_hi64(input), spec_lo64(input)),
                    i as int,
                ).0,
                x1 == spec_enc_rounds(
                    self.round_keys@,
                    (spec_hi64(input), spec_lo64(input)),
                    i as int,
                ).1,
        {
            let des = DES::new(self.round_keys[i]);
            x1 = des.encrypt(x0) ^ x1;
            let t = x0;
            x0 = x1;
            x1 = t;
        }
        ((x0 as u128) << 64) | (x1 as u128)
    }

    pub fn decrypt(&self, input: u128) -> (r: u128)
        ensures
            r == spec_deal_decrypt(self.round_keys@, input),
    {
        let mut x0 = (input >> 64) as u64;
        let mut x1 = input as u64;
        for i in 0..6usize
            invariant
                x0 == spec_dec_rounds(
                    self.round_keys@,
                    (spec_hi64(input), spec_lo64(input)),
                    i as int,
                ).0,
                x1 == spec_dec_rounds(
                    self.round_keys@,
                    (spec_hi64(input), spec_lo64(input)),
                    i as int,
                ).1,
        {
            let t = x0;
            x0 = x1;
            x1 = t;
            let des = DES::new(self.round_keys[5 - i]);
            x1 = des.encrypt(x0) ^ x1;
        }
        ((x0 as u128) << 64) | (x1 as u128)
    }
}

/// Splitting a block into halves and joining them back is the identity,
/// and joining then splitting recovers the halves.
proof fn lemma_split_join(x: u128, h: u64, l: u64)
    ensures
        spec_join(spec_hi64(x), spec_lo64(x)) == x,
        spec_hi64(spec_join(h, l)) == h,
        spec_lo64(spec_join(h, l)) == l,
{
    assert((((x >> 64u128) as u64 as u128) << 64u128) | (x as u64 as u128) == x)
        by (bit_vector);
    assert(((((h as u128) << 64u128) | (l as u128)) >> 64u128) as u64 == h) by (bit_vector);
    assert((((h as u128) << 64u128) | (l as u128)) as u64 == l) by (bit_vector);
}

/// Xor by the same word twice is the identity.
proof fn lemma_xor_cancel()
    by (bit_vector)
    ensures
        forall|a: u64, b: u64| #[trigger] (b ^ (b ^ a)) == a,
{
}

/// One decryption round with the matching round key undoes one
/// encryption round.
proof fn lemma_rounds_inverse(rks: Seq<u64>, x: (u64, u64), n: int)
    requires
        rks.len() == 6,
        0 <= n <= 6,
    ensures
        spec_dec_rounds(rks, spec_enc_rounds(rks, x, 6), n) == spec_enc_rounds(rks, x, 6 - n),
    decreases n,
{
    lemma_xor_cancel();
    if n > 0 {
        lemma_rounds_inverse(rks, x, n - 1);
    }
}

/// One encryption round with the matching round key undoes one
/// decryption round.
proof fn lemma_rounds_inverse_back(rks: Seq<u64>, x: (u64, u64), n: int)
    requires
        rks.len() == 6,
        0 <= n <= 6,
    ensures
        spec_enc_rounds(rks, spec_dec_rounds(rks, x, 6), n) == spec_dec_rounds(rks, x, 6 - n),
    decreases n,
{
    lemma_xor_cancel();
    if n > 0 {
        lemma_rounds_inverse_back(rks, x, n - 1);
    }
}

/// Encrypting what decryption produced gives the ciphertext block
/// back: with the round trip this makes both directions bijections.
pub proof fn lemma_deal128_encrypt_of_decrypt(key: u128, c: u128)
    ensures
        spec_deal_encrypt(spec_round_keys(key), spec_deal_decrypt(spec_round_keys(key), c)) == c,
{
    let rks = spec_round_keys(key);
    let x = (spec_hi64(c), spec_lo64(c));
    let d = spec_dec_rounds(rks, x, 6);
    lemma_split_join(c, d.0, d.1);
    lemma_rounds_inverse_back(rks, x, 6);
    lemma_split_join(spec_deal_decrypt(rks, c), d.0, d.1);
}

/// Block decryption is injective: two ciphertext blocks with the same
/// plaintext are the same block.
pub proof fn lemma_deal128_decrypt_injective(key: u128, a: u128, b: u128)
    requires
        spec_deal_decrypt(spec_round_keys(key), a) == spec_deal_decrypt(spec_round_keys(key), b),
    ensures
        a == b,
{
    lemma_deal128_encrypt_of_decrypt(key, a);
    lemma_deal128_encrypt_of_decrypt(key, b);
}

/// DEAL-128 round trip at the block level: decryption under the same
/// round keys undoes encryption, for every key and every block.
pub proof fn lemma_deal128_round_trip(key: u128, p: u128)
    ensures
        spec_deal_decrypt(spec_round_keys(key), spec_deal_encrypt(spec_round_keys(key), p)) == p,
{
    let rks = spec_round_keys(key);
    let x = (spec_hi64(p), spec_lo64(p));
    let e = spec_enc_rounds(rks, x, 6);
    lemma_split_join(p, e.0, e.1);
    lemma_rounds_inverse(rks, x, 6);
    lemma_split_join(spec_deal_encrypt(rks, p), e.0, e.1);
}

} // verus!
