//! The DES primitive (FIPS 46): a 64-bit block cipher, used here only
//! through its encryption direction as the round function of DEAL-128.
//! Every step is specified by a spec-level mirror of the standard
//! tables, so `DES::encrypt` is a proved function of key and block.

use vstd::prelude::*;

verus! {

/// Initial permutation.
pub const IP: [u8; 64] = [
    58, 50, 42, 34, 26, 18, 10, 2,
    60, 52, 44, 36, 28, 20, 12, 4,
    62, 54, 46, 38, 30, 22, 14, 6,
    64, 56, 48, 40, 32, 24, 16, 8,
    57, 49, 41, 33, 25, 17, 9, 1,
    59, 51, 43, 35, 27, 19, 11, 3,
    61, 53, 45, 37, 29, 21, 13, 5,
    63, 55, 47, 39, 31, 23, 15, 7,
];

/// Final permutation, the inverse of `IP`.
pub const FP: [u8; 64] = [
    40, 8, 48, 16, 56, 24, 64, 32,
    39, 7, 47, 15, 55, 23, 63, 31,
    38, 6, 46, 14, 54, 22, 62, 30,
    37, 5, 45, 13, 53, 21, 61, 29,
    36, 4, 44, 12, 52, 20, 60, 28,
    35, 3, 43, 11, 51, 19, 59, 27,
    34, 2, 42, 10, 50, 18, 58, 26,
    33, 1, 41, 9, 49, 17, 57, 25,
];

/// Expansion of the 32-bit half block to 48 bits.
pub const EXPANSION: [u8; 48] = [
    32, 1, 2, 3, 4, 5,
    4, 5, 6, 7, 8, 9,
    8, 9, 10, 11, 12, 13,
    12, 13, 14, 15, 16, 17,
    16, 17, 18, 19, 20, 21,
    20, 21, 22, 23, 24, 25,
    24, 25, 26, 27, 28, 29,
    28, 29, 30, 31, 32, 1,
];

/// Permutation applied after the S-boxes.
pub const PERM_P: [u8; 32] = [
    16, 7, 20, 21,
    29, 12, 28, 17,
    1, 15, 23, 26,
    5, 18, 31, 10,
    2, 8, 24, 14,
    32, 27, 3, 9,
    19, 13, 30, 6,
    22, 11, 4, 25,
];

/// Permuted choice 1: 64-bit key to 56 bits.
pub const PC1: [u8; 56] = [
    57, 49, 41, 33, 25, 17, 9,
    1, 58, 50, 42, 34, 26, 18,
    10, 2, 59, 51, 43, 35, 27,
    19, 11, 3, 60, 52, 44, 36,
    63, 55, 47, 39, 31, 23, 15,
    7, 62, 54, 46, 38, 30, 22,
    14, 6, 61, 53, 45, 37, 29,
    21, 13, 5, 28, 20, 12, 4,
];

/// Permuted choice 2: 56-bit state to a 48-bit subkey.
pub const PC2: [u8; 48] = [
    14, 17, 11, 24, 1, 5,
    3, 28, 15, 6, 21, 10,
    23, 19, 12, 4, 26, 8,
    16, 7, 27, 20, 13, 2,
    41, 52, 31, 37, 47, 55,
    30, 40, 51, 45, 33, 48,
    44, 49, 39, 56, 34, 53,
    46, 42, 50, 36, 29, 32,
];

/// Left-rotation amounts of the key halves, one per round.
pub const SHIFTS: [u8; 16] = [1, 1, 2, 2, 2, 2, 2, 2, 1, 2, 2, 2, 2, 2, 2, 1];

/// The eight S-boxes, flattened: box `b` occupies entries
/// `b * 64 ..= b * 64 + 63`, each box laid out as four rows of sixteen.
pub const SBOXES: [u8; 512] = [
    14, 4, 13, 1, 2, 15, 11, 8, 3, 10, 6, 12, 5, 9, 0, 7,
    0, 15, 7, 4, 14, 2, 13, 1, 10, 6, 12, 11, 9, 5, 3, 8,
    4, 1, 14, 8, 13, 6, 2, 11, 15, 12, 9, 7, 3, 10, 5, 0,
    15, 12, 8, 2, 4, 9, 1, 7, 5, 11, 3, 14, 10, 0, 6, 13,
    15, 1, 8, 14, 6, 11, 3, 4, 9, 7, 2, 13, 12, 0, 5, 10,
    3, 13, 4, 7, 15, 2, 8, 14, 12, 0, 1, 10, 6, 9, 11, 5,
    0, 14, 7, 11, 10, 4, 13, 1, 5, 8, 12, 6, 9, 3, 2, 15,
    13, 8, 10, 1, 3, 15, 4, 2, 11, 6, 7, 12, 0, 5, 14, 9,
    10, 0, 9, 14, 6, 3, 15, 5, 1, 13, 12, 7, 11, 4, 2, 8,
    13, 7, 0, 9, 3, 4, 6, 10, 2, 8, 5, 14, 12, 11, 15, 1,
    13, 6, 4, 9, 8, 15, 3, 0, 11, 1, 2, 12, 5, 10, 14, 7,
    1, 10, 13, 0, 6, 9, 8, 7, 4, 15, 14, 3, 11, 5, 2, 12,
    7, 13, 14, 3, 0, 6, 9, 10, 1, 2, 8, 5, 11, 12, 4, 15,
    13, 8, 11, 5, 6, 15, 0, 3, 4, 7, 2, 12, 1, 10, 14, 9,
    10, 6, 9, 0, 12, 11, 7, 13, 15, 1, 3, 14, 5, 2, 8, 4,
    3, 15, 0, 6, 10, 1, 13, 8, 9, 4, 5, 11, 12, 7, 2, 14,
    2, 12, 4, 1, 7, 10, 11, 6, 8, 5, 3, 15, 13, 0, 14, 9,
    14, 11, 2, 12, 4, 7, 13, 1, 5, 0, 15, 10, 3, 9, 8, 6,
    4, 2, 1, 11, 10, 13, 7, 8, 15, 9, 12, 5, 6, 3, 0, 14,
    11, 8, 12, 7, 1, 14, 2, 13, 6, 15, 0, 9, 10, 4, 5, 3,
    12, 1, 10, 15, 9, 2, 6, 8, 0, 13, 3, 4, 14, 7, 5, 11,
    10, 15, 4, 2, 7, 12, 9, 5, 6, 1, 13, 14, 0, 11, 3, 8,
    9, 14, 15, 5, 2, 8, 12, 3, 7, 0, 4, 10, 1, 13, 11, 6,
    4, 3, 2, 12, 9, 5, 15, 10, 11, 14, 1, 7, 6, 0, 8, 13,
    4, 11, 2, 14, 15, 0, 8, 13, 3, 12, 9, 7, 5, 10, 6, 1,
    13, 0, 11, 7, 4, 9, 1, 10, 14, 3, 5, 12, 2, 15, 8, 6,
    1, 4, 11, 13, 12, 3, 7, 14, 10, 15, 6, 8, 0, 5, 9, 2,
    6, 11, 13, 8, 1, 4, 10, 7, 9, 5, 0, 15, 14, 2, 3, 12,
    13, 2, 8, 4, 6, 15, 11, 1, 10, 9, 3, 14, 5, 0, 12, 7,
    1, 15, 13, 8, 10, 3, 7, 4, 12, 5, 6, 11, 0, 14, 9, 2,
    7, 11, 4, 1, 9, 12, 14, 2, 0, 6, 10, 13, 15, 3, 5, 8,
    2, 1, 14, 7, 4, 10, 8, 13, 15, 12, 9, 0, 3, 5, 6, 11,
];

/// Bit `p` (numbered 1 from the left) of the `w`-bit word `x` held
/// right-aligned; zero when the position is out of range.
pub open spec fn spec_perm_bit(x: u64, w: u64, p: u64) -> u64 {
    if 1 <= p && p <= w && w <= 64 {
        (x >> ((w - p) as u64)) & 1
    } else {
        0
    }
}

/// The first `n` entries of the bit-selection table `t` applied to `x`,
/// producing an `n`-bit word.
pub open spec fn spec_permute(x: u64, t: Seq<u8>, w: u64, n: int) -> u64
    decreases n,
{
    if n <= 0 {
        0
    } else {
        (spec_permute(x, t, w, n - 1) << 1u64) | spec_perm_bit(x, w, t[n - 1] as u64)
    }
}

fn permute<const N: usize>(x: u64, t: &[u8; N], w: u64) -> (r: u64)
    ensures
        r == spec_permute(x, t@, w, N as int),
{
    let mut r: u64 = 0;
    for j in 0..N
        invariant
            r == spec_permute(x, t@, w, j as int),
    {
        let p = t[j] as u64;
        let b: u64 = if 1 <= p && p <= w && w <= 64 {
            (x >> (w - p)) & 1
        } else {
            0
        };
        r = (r << 1) | b;
    }
    r
}

/// Result of S-box `bi` on the six-bit chunk: the outer two bits pick
/// the row, the middle four the column.
pub open spec fn spec_sbox(bi: int, chunk: u64) -> u64 {
    let row = ((chunk >> 4u64) & 2) | (chunk & 1);
    let col = (chunk >> 1u64) & 15;
    SBOXES[bi * 64 + row as int * 16 + col as int] as u64
}

fn sbox(bi: usize, chunk: u64) -> (r: u64)
    requires
        bi < 8,
    ensures
        r == spec_sbox(bi as int, chunk),
{
    let row = ((chunk >> 4) & 2) | (chunk & 1);
    let col = (chunk >> 1) & 15;
    proof {
        assert(((chunk >> 4u64) & 2) | (chunk & 1) <= 3 && (chunk >> 1u64) & 15 <= 15)
            by (bit_vector);
    }
    SBOXES[bi * 64 + (row as usize) * 16 + (col as usize)] as u64
}

/// The first `n` S-boxes applied to the 48-bit word `x`, giving the
/// leading `4 * n` bits of the substitution result.
pub open spec fn spec_sbox_stage(x: u64, n: int) -> u64
    decreases n,
{
    if n <= 0 {
        0
    } else {
        (spec_sbox_stage(x, n - 1) << 4u64)
            | spec_sbox(n - 1, (x >> ((48 - 6 * n) as u64)) & 63)
    }
}

fn sbox_stage(x: u64) -> (r: u64)
    ensures
        r == spec_sbox_stage(x, 8),
{
    let mut r: u64 = 0;
    for i in 0..8usize
        invariant
            r == spec_sbox_stage(x, i as int),
    {
        let chunk = (x >> (42 - 6 * (i as u64))) & 63;
        r = (r << 4) | sbox(i, chunk);
    }
    r
}

/// The cipher function f: expand the half block, mix in the subkey,
/// substitute through the S-boxes and permute.
pub open spec fn spec_f(r32: u64, k48: u64) -> u64 {
    spec_permute(
        spec_sbox_stage(spec_permute(r32, EXPANSION@, 32, 48) ^ k48, 8),
        PERM_P@,
        32,
        32,
    )
}

fn f_func(r32: u64, k48: u64) -> (r: u64)
    ensures
        r == spec_f(r32, k48),
{
    permute::<32>(sbox_stage(permute::<48>(r32, &EXPANSION, 32) ^ k48), &PERM_P, 32)
}

/// Left rotation of a 28-bit word by `s` places; identity when `s`
/// exceeds the width.
pub open spec fn spec_rotl28(c: u64, s: u64) -> u64 {
    if s <= 28 {
        ((c << s) | (c >> ((28 - s) as u64))) & 0xFFF_FFFF
    } else {
        c
    }
}

fn rotl28(c: u64, s: u64) -> (r: u64)
    ensures
        r == spec_rotl28(c, s),
{
    if s <= 28 {
        ((c << s) | (c >> (28 - s))) & 0xFFF_FFFF
    } else {
        c
    }
}

/// The two 28-bit key halves after `n` rounds of rotation.
pub open spec fn spec_cd(key: u64, n: int) -> (u64, u64)
    decreases n,
{
    if n <= 0 {
        let k56 = spec_permute(key, PC1@, 64, 56);
        ((k56 >> 28u64) & 0xFFF_FFFF, k56 & 0xFFF_FFFF)
    } else {
        let prev = spec_cd(key, n - 1);
        let s = SHIFTS[n - 1] as u64;
        (spec_rotl28(prev.0, s), spec_rotl28(prev.1, s))
    }
}

/// The round-`n` subkey (rounds numbered from 1).
pub open spec fn spec_subkey(key: u64, n: int) -> u64 {
    let cd = spec_cd(key, n);
    spec_permute((cd.0 << 28u64) | cd.1, PC2@, 56, 48)
}

fn subkeys(key: u64) -> (ks: Vec<u64>)
    ensures
        ks@.len() == 16,
        forall|i: int| 0 <= i < 16 ==> ks@[i] == spec_subkey(key, i + 1),
{
    let k56 = permute::<56>(key, &PC1, 64);
    let mut c = (k56 >> 28) & 0xFFF_FFFF;
    let mut d = k56 & 0xFFF_FFFF;
    let mut ks: Vec<u64> = Vec::new();
    for i in 0..16usize
        invariant
            c == spec_cd(key, i as int).0,
            d == spec_cd(key, i as int).1,
            ks@.len() == i,
            forall|j: int| 0 <= j < i ==> ks@[j] == spec_subkey(key, j + 1),
    {
        let s = SHIFTS[i] as u64;
        c = rotl28(c, s);
        d = rotl28(d, s);
        ks.push(permute::<48>((c << 28) | d, &PC2, 56));
    }
    ks
}

/// The left and right half blocks after `n` Feistel rounds.
pub open spec fn spec_rounds(key: u64, x: (u64, u64), n: int) -> (u64, u64)
    decreases n,
{
    if n <= 0 {
        x
    } else {
        let p = spec_rounds(key, x, n - 1);
        (p.1, p.0 ^ spec_f(p.1, spec_subkey(key, n)))
    }
}

/// DES encryption of one 64-bit block under a 64-bit key (parity bits
/// included in the key as in the standard). Opaque: callers treat it
/// as an unknown but fixed function of key and block.
#[verifier::opaque]
pub open spec fn spec_des_encrypt(key: u64, block: u64) -> u64 {
    let ip = spec_permute(block, IP@, 64, 64);
    let lr = spec_rounds(key, (ip >> 32u64, ip & 0xFFFF_FFFF), 16);
    spec_permute((lr.1 << 32u64) | lr.0, FP@, 64, 64)
}

/// The DES block cipher keyed for encryption.
#[derive(Copy, Clone, Debug)]
pub struct DES {
    pub key: u64,
}

impl DES {
    pub fn new(key: u64) -> (r: Self)
        ensures
            r.key == key,
    {
        DES { key }
    }

    pub fn encrypt(&self, block: u64) -> (r: u64)
        ensures
            r == spec_des_encrypt(self.key, block),
    {
        proof {
            reveal(spec_des_encrypt);
        }
        let ks = subkeys(self.key);
        let ip = permute::<64>(block, &IP, 64);
        let mut l = ip >> 32;
        let mut r = ip & 0xFFFF_FFFF;
        for i in 0..16usize
            invariant
                ks@.len() == 16,
                forall|j: int| 0 <= j < 16 ==> ks@[j] == spec_subkey(self.key, j + 1),
                l == spec_rounds(self.key, (ip >> 32u64, ip & 0xFFFF_FFFF), i as int).0,
                r == spec_rounds(self.key, (ip >> 32u64, ip & 0xFFFF_FFFF), i as int).1,
        {
            let t = r;
            r = l ^ f_func(r, ks[i]);
            l = t;
        }
        permute::<64>((r << 32) | l, &FP, 64)
    }
}

} // verus!
