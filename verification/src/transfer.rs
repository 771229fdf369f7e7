//! Wire codec of the framed file transport: dataframe chunking at
//! 8 MiB, the 8-byte big-endian count frame, the conversions between
//! byte streams and 128-bit blocks, and the request/response tags.
//! The socket itself stays outside the crate; these functions pin the
//! bytes that cross it.

use vstd::prelude::*;

verus! {

/// Size of one payload dataframe on the wire.
pub const DATAFRAME_SIZE: usize = 1024 * 1024 * 8;

/// A request sent by the client, one per session.
#[derive(Copy, Clone, Debug, PartialEq, Eq, Structural)]
pub enum Request {
    Upload,
    GetFiles,
    Download(u128),
    Delete(u128),
}

/// A server verdict on one exchange.
#[derive(Copy, Clone, Debug, PartialEq, Eq, Structural)]
pub enum Response {
    Success,
    FSFail,
    CommFail,
}

/// Number of dataframes a file of `len` bytes occupies.
pub open spec fn spec_count_dataframes(len: nat) -> nat {
    if len % (DATAFRAME_SIZE as nat) > 0 {
        len / (DATAFRAME_SIZE as nat) + 1
    } else {
        len / (DATAFRAME_SIZE as nat)
    }
}

/// The dataframe count is the length divided by the dataframe size,
/// rounded up.
pub proof fn lemma_count_is_ceiling(len: nat)
    ensures
        spec_count_dataframes(len) == (len + DATAFRAME_SIZE - 1) as int / (DATAFRAME_SIZE as int),
{
    let s = DATAFRAME_SIZE as int;
    let l = len as int;
    vstd::arithmetic::div_mod::lemma_fundamental_div_mod(l, s);
    vstd::arithmetic::div_mod::lemma_fundamental_div_mod(l + s - 1, s);
    assert(spec_count_dataframes(len) == (l + s - 1) / s) by (nonlinear_arith)
        requires
            s == DATAFRAME_SIZE as int,
            l >= 0,
            spec_count_dataframes(len) == if l % s > 0 {
                l / s + 1
            } else {
                l / s
            },
    ;
}

pub fn count_dataframes(file: &Vec<u8>) -> (r: usize)
    ensures
        r == spec_count_dataframes(file@.len()),
{
    let q = file.len() / DATAFRAME_SIZE;
    proof {
        vstd::arithmetic::div_mod::lemma_fundamental_div_mod(
            file@.len() as int,
            DATAFRAME_SIZE as int,
        );
        vstd::arithmetic::div_mod::lemma_mod_bound(file@.len() as int, DATAFRAME_SIZE as int);
        assert(q + 1 <= usize::MAX) by (nonlinear_arith)
            requires
                q >= 0,
                (DATAFRAME_SIZE as int) * q <= usize::MAX as int,
                DATAFRAME_SIZE >= 2,
        ;
    }
    (if file.len() % DATAFRAME_SIZE > 0 {
        1
    } else {
        0
    }) + q
}

/// End of dataframe `i` in a file of `len` bytes.
pub open spec fn spec_frame_end(len: int, i: int) -> int {
    if (i + 1) * DATAFRAME_SIZE <= len {
        (i + 1) * DATAFRAME_SIZE
    } else {
        len
    }
}

/// Dataframe `i` of the file: the bytes from `i * DATAFRAME_SIZE` up
/// to the next boundary or the end of the file.
pub open spec fn spec_frame(s: Seq<u8>, i: int) -> Seq<u8> {
    s.subrange(i * DATAFRAME_SIZE, spec_frame_end(s.len() as int, i))
}

/// All dataframes of a file, in order.
pub open spec fn spec_frames(s: Seq<u8>) -> Seq<Seq<u8>> {
    Seq::new(spec_count_dataframes(s.len()), |i: int| spec_frame(s, i))
}

/// Split a file into its dataframes, in order: frame `i` holds bytes
/// `i * DATAFRAME_SIZE` up to the next boundary, the last one shorter
/// when the length is not a multiple.
#[verifier::loop_isolation(false)]
pub fn chunk_file(file: &Vec<u8>) -> (r: Vec<Vec<u8>>)
    ensures
        r@.len() == spec_count_dataframes(file@.len()),
        forall|i: int| 0 <= i < r@.len() ==> #[trigger] r@[i]@ == spec_frame(file@, i),
        r@.map_values(|v: Vec<u8>| v@) == spec_frames(file@),
{
    let n = count_dataframes(file);
    let flen = file.len();
    let mut r: Vec<Vec<u8>> = Vec::new();
    for i in 0..n
        invariant
            n == spec_count_dataframes(file@.len()),
            r@.len() == i,
            forall|j: int| 0 <= j < i ==> #[trigger] r@[j]@ == spec_frame(file@, j),
    {
        proof {
            let l = file@.len() as int;
            let sz = DATAFRAME_SIZE as int;
            vstd::arithmetic::div_mod::lemma_fundamental_div_mod(l, sz);
            vstd::arithmetic::div_mod::lemma_mod_bound(l, sz);
            assert((i as int) * sz <= l) by (nonlinear_arith)
                requires
                    0 <= i as int,
                    sz >= 2,
                    l == sz * (l / sz) + l % sz,
                    0 <= l % sz < sz,
                    (i as int) < (if l % sz > 0 {
                        l / sz + 1
                    } else {
                        l / sz
                    }),
            ;
            assert((i as int) * (DATAFRAME_SIZE as int) <= file@.len());
            assert((i as int + 1) * sz == (i as int) * sz + sz) by (nonlinear_arith);
        }
        let lower = i * DATAFRAME_SIZE;
        let higher = if file.len() - lower > DATAFRAME_SIZE {
            lower + DATAFRAME_SIZE
        } else {
            file.len()
        };
        let mut chunk: Vec<u8> = Vec::new();
        for k in lower..higher
            invariant
                lower == i * DATAFRAME_SIZE,
                higher == spec_frame_end(file@.len() as int, i as int),
                lower <= k <= higher <= file@.len(),
                chunk@ == file@.subrange(lower as int, k as int),
        {
            chunk.push(file[k]);
            proof {
                assert(chunk@ =~= file@.subrange(lower as int, k + 1 as int));
            }
        }
        r.push(chunk);
    }
    proof {
        assert(r@.map_values(|v: Vec<u8>| v@) =~= spec_frames(file@));
    }
    r
}

/// Concatenation of the first `n` byte vectors.
pub open spec fn spec_concat_prefix(s: Seq<Seq<u8>>, n: int) -> Seq<u8>
    decreases n,
{
    if n <= 0 {
        Seq::empty()
    } else {
        spec_concat_prefix(s, n - 1) + s[n - 1]
    }
}

/// Concatenation of a sequence of byte vectors, in order.
pub open spec fn spec_concat(s: Seq<Seq<u8>>) -> Seq<u8> {
    spec_concat_prefix(s, s.len() as int)
}

/// Concatenate received dataframes back into the file, in order.
#[verifier::loop_isolation(false)]
pub fn assemble_file(frames: &Vec<Vec<u8>>) -> (r: Vec<u8>)
    requires
        spec_concat(frames@.map_values(|v: Vec<u8>| v@)).len() <= usize::MAX,
    ensures
        r@ == spec_concat(frames@.map_values(|v: Vec<u8>| v@)),
{
    let ghost views = frames@.map_values(|v: Vec<u8>| v@);
    let mut r: Vec<u8> = Vec::new();
    for i in 0..frames.len()
        invariant
            views == frames@.map_values(|v: Vec<u8>| v@),
            r@ == spec_concat_prefix(views, i as int),
            spec_concat(views).len() <= usize::MAX,
    {
        proof {
            lemma_concat_prefix_len_grows(views, i + 1, views.len() as int);
        }
        let frame = &frames[i];
        for k in 0..frame.len()
            invariant
                views == frames@.map_values(|v: Vec<u8>| v@),
                frame@ == views[i as int],
                k <= frame@.len(),
                r@ == spec_concat_prefix(views, i as int) + frame@.take(k as int),
                spec_concat_prefix(views, i + 1).len() <= usize::MAX,
        {
            r.push(frame[k]);
            proof {
                assert(r@ =~= spec_concat_prefix(views, i as int) + frame@.take(k + 1 as int));
            }
        }
        proof {
            assert(r@ =~= spec_concat_prefix(views, i + 1));
        }
    }
    r
}

/// A longer prefix concatenates at least as many bytes.
proof fn lemma_concat_prefix_len_grows(s: Seq<Seq<u8>>, n: int, m: int)
    requires
        0 <= n <= m,
    ensures
        spec_concat_prefix(s, n).len() <= spec_concat_prefix(s, m).len(),
    decreases m,
{
    if n < m {
        lemma_concat_prefix_len_grows(s, n, m - 1);
    }
}

/// The first `n` dataframes concatenate to the first `n` boundaries'
/// worth of the file.
proof fn lemma_frames_prefix(s: Seq<u8>, n: int)
    requires
        0 <= n <= spec_count_dataframes(s.len()),
    ensures
        spec_concat_prefix(spec_frames(s), n) == s.take(
            if n * DATAFRAME_SIZE <= s.len() {
                n * DATAFRAME_SIZE
            } else {
                s.len() as int
            },
        ),
    decreases n,
{
    let count = spec_count_dataframes(s.len());
    let frames = spec_frames(s);
    if n > 0 {
        lemma_frames_prefix(s, n - 1);
        let l = s.len() as int;
        let sz = DATAFRAME_SIZE as int;
        vstd::arithmetic::div_mod::lemma_fundamental_div_mod(l, sz);
        vstd::arithmetic::div_mod::lemma_mod_bound(l, sz);
        assert((n - 1) * sz <= l) by (nonlinear_arith)
            requires
                0 < n,
                sz >= 2,
                l == sz * (l / sz) + l % sz,
                0 <= l % sz < sz,
                n <= (if l % sz > 0 {
                    l / sz + 1
                } else {
                    l / sz
                }),
        ;
        assert(n * sz == (n - 1) * sz + sz) by (nonlinear_arith);
        let end1 = (n - 1) * sz;
        let end2 = if n * sz <= l {
            n * sz
        } else {
            l
        };
        assert(spec_concat_prefix(frames, n - 1) == s.take(end1));
        assert(frames[n - 1] == spec_frame(s, n - 1));
        assert(spec_frame_end(l, n - 1) == end2);
        assert(s.take(end2) =~= s.take(end1) + s.subrange(end1, end2));
        assert(spec_concat_prefix(frames, n) =~= s.take(end2));
    } else {
        assert(spec_concat_prefix(frames, 0) =~= s.take(0));
    }
}

/// Transport round trip: the dataframes of a file, received in order
/// and concatenated, are the file again — for every byte sequence.
pub proof fn lemma_chunking_round_trip(s: Seq<u8>)
    ensures
        spec_concat(spec_frames(s)) == s,
{
    let count = spec_count_dataframes(s.len());
    let frames = spec_frames(s);
    lemma_frames_prefix(s, count as int);
    assert(count * DATAFRAME_SIZE >= s.len()) by (nonlinear_arith)
        requires
            count == spec_count_dataframes(s.len()),
    ;
    assert(spec_concat(frames) =~= s);
}

/// The 8 bytes of the big-endian count frame.
pub open spec fn spec_count_frame(n: u64) -> Seq<u8> {
    seq![
        (n >> 56u64) as u8,
        (n >> 48u64) as u8,
        (n >> 40u64) as u8,
        (n >> 32u64) as u8,
        (n >> 24u64) as u8,
        (n >> 16u64) as u8,
        (n >> 8u64) as u8,
        n as u8,
    ]
}

/// Encode the dataframe count as its 8-byte big-endian frame.
pub fn count_frame_bytes(n: u64) -> (r: Vec<u8>)
    ensures
        r@ == spec_count_frame(n),
{
    let mut r: Vec<u8> = Vec::new();
    r.push((n >> 56) as u8);
    r.push((n >> 48) as u8);
    r.push((n >> 40) as u8);
    r.push((n >> 32) as u8);
    r.push((n >> 24) as u8);
    r.push((n >> 16) as u8);
    r.push((n >> 8) as u8);
    r.push(n as u8);
    proof {
        assert(r@ =~= spec_count_frame(n));
    }
    r
}

/// Decode a count frame; `None` when the frame is not exactly 8 bytes.
pub fn parse_count_frame(b: &Vec<u8>) -> (r: Option<u64>)
    ensures
        r is Some <==> b@.len() == 8,
        r is Some ==> spec_count_frame(r->0) == b@,
{
    if b.len() != 8 {
        return None;
    }
    let n = ((b[0] as u64) << 56) | ((b[1] as u64) << 48) | ((b[2] as u64) << 40) | ((b[3]
        as u64) << 32) | ((b[4] as u64) << 24) | ((b[5] as u64) << 16) | ((b[6] as u64) << 8) | (
    b[7] as u64);
    proof {
        let b0 = b@[0];
        let b1 = b@[1];
        let b2 = b@[2];
        let b3 = b@[3];
        let b4 = b@[4];
        let b5 = b@[5];
        let b6 = b@[6];
        let b7 = b@[7];
        assert({
            let x = ((b0 as u64) << 56u64) | ((b1 as u64) << 48u64) | ((b2 as u64) << 40u64) | ((
            b3 as u64) << 32u64) | ((b4 as u64) << 24u64) | ((b5 as u64) << 16u64) | ((b6
                as u64) << 8u64) | (b7 as u64);
            (x >> 56u64) as u8 == b0 && (x >> 48u64) as u8 == b1 && (x >> 40u64) as u8 == b2 && (x
                >> 32u64) as u8 == b3 && (x >> 24u64) as u8 == b4 && (x >> 16u64) as u8 == b5 && (
            x >> 8u64) as u8 == b6 && x as u8 == b7
        }) by (bit_vector);
        assert(spec_count_frame(n) =~= b@);
    }
    Some(n)
}

/// The 16 big-endian bytes of one 128-bit block.
pub open spec fn spec_block_bytes(x: u128) -> Seq<u8> {
    seq![
        (x >> 120u128) as u8,
        (x >> 112u128) as u8,
        (x >> 104u128) as u8,
        (x >> 96u128) as u8,
        (x >> 88u128) as u8,
        (x >> 80u128) as u8,
        (x >> 72u128) as u8,
        (x >> 64u128) as u8,
        (x >> 56u128) as u8,
        (x >> 48u128) as u8,
        (x >> 40u128) as u8,
        (x >> 32u128) as u8,
        (x >> 24u128) as u8,
        (x >> 16u128) as u8,
        (x >> 8u128) as u8,
        x as u8,
    ]
}

/// The bytes of the first `n` blocks, in order.
pub open spec fn spec_bytes_of_blocks_prefix(s: Seq<u128>, n: int) -> Seq<u8>
    decreases n,
{
    if n <= 0 {
        Seq::empty()
    } else {
        spec_bytes_of_blocks_prefix(s, n - 1) + spec_block_bytes(s[n - 1])
    }
}

/// The big-endian byte stream of a block sequence.
pub open spec fn spec_bytes_of_blocks(s: Seq<u128>) -> Seq<u8> {
    spec_bytes_of_blocks_prefix(s, s.len() as int)
}

/// The 128-bit block read big-endian from 16 bytes of `s` at `off`.
pub open spec fn spec_block_at(s: Seq<u8>, off: int) -> u128 {
    ((s[off] as u128) << 120u128) | ((s[off + 1] as u128) << 112u128) | ((s[off + 2] as u128)
        << 104u128) | ((s[off + 3] as u128) << 96u128) | ((s[off + 4] as u128) << 88u128) | ((
    s[off + 5] as u128) << 80u128) | ((s[off + 6] as u128) << 72u128) | ((s[off + 7] as u128)
        << 64u128) | ((s[off + 8] as u128) << 56u128) | ((s[off + 9] as u128) << 48u128) | ((s[off
        + 10] as u128) << 40u128) | ((s[off + 11] as u128) << 32u128) | ((s[off + 12] as u128)
        << 24u128) | ((s[off + 13] as u128) << 16u128) | ((s[off + 14] as u128) << 8u128) | (s[off
        + 15] as u128)
}

/// The block sequence read big-endian from a byte stream whose length
/// is a multiple of 16.
pub open spec fn spec_blocks_of_bytes(s: Seq<u8>) -> Seq<u128> {
    Seq::new(s.len() / 16, |i: int| spec_block_at(s, 16 * i))
}

/// Flatten 128-bit blocks into their big-endian byte stream.
#[verifier::loop_isolation(false)]
pub fn u128_to_u8(value: Vec<u128>) -> (r: Vec<u8>)
    requires
        value@.len() * 16 <= usize::MAX,
    ensures
        r@ == spec_bytes_of_blocks(value@),
{
    let mut r: Vec<u8> = Vec::new();
    for i in 0..value.len()
        invariant
            value@.len() * 16 <= usize::MAX,
            r@.len() == 16 * i,
            r@ == spec_bytes_of_blocks_prefix(value@, i as int),
    {
        let x = value[i];
        r.push((x >> 120) as u8);
        r.push((x >> 112) as u8);
        r.push((x >> 104) as u8);
        r.push((x >> 96) as u8);
        r.push((x >> 88) as u8);
        r.push((x >> 80) as u8);
        r.push((x >> 72) as u8);
        r.push((x >> 64) as u8);
        r.push((x >> 56) as u8);
        r.push((x >> 48) as u8);
        r.push((x >> 40) as u8);
        r.push((x >> 32) as u8);
        r.push((x >> 24) as u8);
        r.push((x >> 16) as u8);
        r.push((x >> 8) as u8);
        r.push(x as u8);
        proof {
            assert(r@ =~= spec_bytes_of_blocks_prefix(value@, i + 1));
        }
    }
    r
}

/// Group a byte stream into 128-bit blocks; the length must be a
/// multiple of 16.
#[verifier::loop_isolation(false)]
pub fn u8_to_u128(value: Vec<u8>) -> (r: Vec<u128>)
    requires
        value@.len() % 16 == 0,
    ensures
        r@ == spec_blocks_of_bytes(value@),
{
    let n = value.len() / 16;
    let mut r: Vec<u128> = Vec::new();
    for i in 0..n
        invariant
            n == value@.len() / 16,
            value@.len() % 16 == 0,
            r@.len() == i,
            forall|j: int| 0 <= j < i ==> r@[j] == spec_block_at(value@, 16 * j),
    {
        proof {
            let l = value@.len() as int;
            vstd::arithmetic::div_mod::lemma_fundamental_div_mod(l, 16);
            assert((i as int) * 16 + 16 <= l) by (nonlinear_arith)
                requires
                    0 <= i as int,
                    (i as int) < l / 16,
                    l == 16 * (l / 16) + l % 16,
                    l % 16 == 0,
            ;
        }
        let base = i * 16;
        let x = ((value[base] as u128) << 120) | ((value[base + 1] as u128) << 112) | ((value[base
            + 2] as u128) << 104) | ((value[base + 3] as u128) << 96) | ((value[base + 4] as u128)
            << 88) | ((value[base + 5] as u128) << 80) | ((value[base + 6] as u128) << 72) | ((
        value[base + 7] as u128) << 64) | ((value[base + 8] as u128) << 56) | ((value[base + 9]
            as u128) << 48) | ((value[base + 10] as u128) << 40) | ((value[base + 11] as u128)
            << 32) | ((value[base + 12] as u128) << 24) | ((value[base + 13] as u128) << 16) | ((
        value[base + 14] as u128) << 8) | (value[base + 15] as u128);
        r.push(x);
    }
    proof {
        assert(r@ =~= spec_blocks_of_bytes(value@));
    }
    r
}

/// The 16 bytes of a block, read back as a block, give the block.
pub proof fn lemma_block_of_block_bytes(x: u128)
    ensures
        spec_block_at(spec_block_bytes(x), 0) == x,
{
    assert({
        let b0 = (x >> 120u128) as u8;
        let b1 = (x >> 112u128) as u8;
        let b2 = (x >> 104u128) as u8;
        let b3 = (x >> 96u128) as u8;
        let b4 = (x >> 88u128) as u8;
        let b5 = (x >> 80u128) as u8;
        let b6 = (x >> 72u128) as u8;
        let b7 = (x >> 64u128) as u8;
        let b8 = (x >> 56u128) as u8;
        let b9 = (x >> 48u128) as u8;
        let b10 = (x >> 40u128) as u8;
        let b11 = (x >> 32u128) as u8;
        let b12 = (x >> 24u128) as u8;
        let b13 = (x >> 16u128) as u8;
        let b14 = (x >> 8u128) as u8;
        let b15 = x as u8;
        ((b0 as u128) << 120u128) | ((b1 as u128) << 112u128) | ((b2 as u128) << 104u128) | ((b3
            as u128) << 96u128) | ((b4 as u128) << 88u128) | ((b5 as u128) << 80u128) | ((b6
            as u128) << 72u128) | ((b7 as u128) << 64u128) | ((b8 as u128) << 56u128) | ((b9
            as u128) << 48u128) | ((b10 as u128) << 40u128) | ((b11 as u128) << 32u128) | ((b12
            as u128) << 24u128) | ((b13 as u128) << 16u128) | ((b14 as u128) << 8u128) | (b15
            as u128) == x
    }) by (bit_vector);
}

/// A block read from 16 bytes, written back out, gives those bytes.
pub proof fn lemma_block_bytes_of_block(s: Seq<u8>, off: int)
    requires
        0 <= off,
        off + 16 <= s.len(),
    ensures
        spec_block_bytes(spec_block_at(s, off)) == s.subrange(off, off + 16),
{
    let b0 = s[off];
    let b1 = s[off + 1];
    let b2 = s[off + 2];
    let b3 = s[off + 3];
    let b4 = s[off + 4];
    let b5 = s[off + 5];
    let b6 = s[off + 6];
    let b7 = s[off + 7];
    let b8 = s[off + 8];
    let b9 = s[off + 9];
    let b10 = s[off + 10];
    let b11 = s[off + 11];
    let b12 = s[off + 12];
    let b13 = s[off + 13];
    let b14 = s[off + 14];
    let b15 = s[off + 15];
    let x = spec_block_at(s, off);
    assert((x >> 120u128) as u8 == b0 && (x >> 112u128) as u8 == b1 && (x >> 104u128) as u8 == b2
        && (x >> 96u128) as u8 == b3 && (x >> 88u128) as u8 == b4 && (x >> 80u128) as u8 == b5 && (
    x >> 72u128) as u8 == b6 && (x >> 64u128) as u8 == b7 && (x >> 56u128) as u8 == b8 && (x
        >> 48u128) as u8 == b9 && (x >> 40u128) as u8 == b10 && (x >> 32u128) as u8 == b11 && (x
        >> 24u128) as u8 == b12 && (x >> 16u128) as u8 == b13 && (x >> 8u128) as u8 == b14 && x
        as u8 == b15) by (bit_vector)
        requires
            x == ((b0 as u128) << 120u128) | ((b1 as u128) << 112u128) | ((b2 as u128)
                << 104u128) | ((b3 as u128) << 96u128) | ((b4 as u128) << 88u128) | ((b5 as u128)
                << 80u128) | ((b6 as u128) << 72u128) | ((b7 as u128) << 64u128) | ((b8 as u128)
                << 56u128) | ((b9 as u128) << 48u128) | ((b10 as u128) << 40u128) | ((b11 as u128)
                << 32u128) | ((b12 as u128) << 24u128) | ((b13 as u128) << 16u128) | ((b14
                as u128) << 8u128) | (b15 as u128),
    ;
    assert(spec_block_bytes(x) =~= s.subrange(off, off + 16));
}

/// The 16 big-endian bytes of one block, as a vector.
pub fn block_to_bytes(x: u128) -> (r: Vec<u8>)
    ensures
        r@ == spec_block_bytes(x),
{
    let mut r: Vec<u8> = Vec::new();
    r.push((x >> 120) as u8);
    r.push((x >> 112) as u8);
    r.push((x >> 104) as u8);
    r.push((x >> 96) as u8);
    r.push((x >> 88) as u8);
    r.push((x >> 80) as u8);
    r.push((x >> 72) as u8);
    r.push((x >> 64) as u8);
    r.push((x >> 56) as u8);
    r.push((x >> 48) as u8);
    r.push((x >> 40) as u8);
    r.push((x >> 32) as u8);
    r.push((x >> 24) as u8);
    r.push((x >> 16) as u8);
    r.push((x >> 8) as u8);
    r.push(x as u8);
    proof {
        assert(r@ =~= spec_block_bytes(x));
    }
    r
}

/// One block read big-endian from exactly 16 bytes.
pub fn bytes_to_block(b: &Vec<u8>) -> (r: u128)
    requires
        b@.len() == 16,
    ensures
        r == spec_block_at(b@, 0),
{
    ((b[0] as u128) << 120) | ((b[1] as u128) << 112) | ((b[2] as u128) << 104) | ((b[3]
        as u128) << 96) | ((b[4] as u128) << 88) | ((b[5] as u128) << 80) | ((b[6] as u128)
        << 72) | ((b[7] as u128) << 64) | ((b[8] as u128) << 56) | ((b[9] as u128) << 48) | ((
    b[10] as u128) << 40) | ((b[11] as u128) << 32) | ((b[12] as u128) << 24) | ((b[13] as u128)
        << 16) | ((b[14] as u128) << 8) | (b[15] as u128)
}

/// The byte stream of the first `n` blocks of `blocks_of(s)` is the
/// first `16 * n` bytes of `s`.
proof fn lemma_bytes_of_blocks_prefix(s: Seq<u8>, n: int)
    requires
        s.len() % 16 == 0,
        0 <= n <= s.len() / 16,
    ensures
        spec_bytes_of_blocks_prefix(spec_blocks_of_bytes(s), n) == s.take(16 * n),
    decreases n,
{
    if n <= 0 {
        assert(spec_bytes_of_blocks_prefix(spec_blocks_of_bytes(s), 0) =~= s.take(0));
    } else {
        lemma_bytes_of_blocks_prefix(s, n - 1);
        lemma_block_bytes_of_block(s, 16 * (n - 1));
        assert(spec_bytes_of_blocks_prefix(spec_blocks_of_bytes(s), n) =~= s.take(16 * n));
    }
}

/// Byte-block round trip: grouping a byte stream whose length is a
/// multiple of 16 into blocks and flattening it again is the identity.
pub proof fn lemma_bytes_blocks_round_trip(s: Seq<u8>)
    requires
        s.len() % 16 == 0,
    ensures
        spec_bytes_of_blocks(spec_blocks_of_bytes(s)) == s,
{
    lemma_bytes_of_blocks_prefix(s, (s.len() / 16) as int);
    assert(spec_bytes_of_blocks(spec_blocks_of_bytes(s)) =~= s);
}

/// Block-byte round trip: flattening blocks to bytes and grouping them
/// again is the identity.
pub proof fn lemma_blocks_bytes_round_trip(s: Seq<u128>)
    ensures
        spec_blocks_of_bytes(spec_bytes_of_blocks(s)) == s,
    decreases s.len(),
{
    if s.len() > 0 {
        let prev = s.drop_last();
        lemma_blocks_bytes_round_trip(prev);
        assert(spec_bytes_of_blocks_prefix(s, s.len() - 1) == spec_bytes_of_blocks(prev)) by {
            lemma_bytes_of_blocks_prefix_congruence(s, prev, s.len() - 1);
        }
        let bytes = spec_bytes_of_blocks(s);
        let prev_bytes = spec_bytes_of_blocks(prev);
        assert(bytes.len() == prev_bytes.len() + 16) by {
            lemma_bytes_of_blocks_len(s, s.len() as int);
            lemma_bytes_of_blocks_len(prev, prev.len() as int);
        }
        assert forall|i: int| 0 <= i < spec_blocks_of_bytes(bytes).len() implies #[trigger]
        spec_blocks_of_bytes(bytes)[i] == s[i] by {
            lemma_bytes_of_blocks_len(s, s.len() as int);
            lemma_bytes_of_blocks_len(prev, prev.len() as int);
            if i < s.len() - 1 {
                assert(spec_block_at(bytes, 16 * i) == spec_block_at(prev_bytes, 16 * i)) by {
                    assert(bytes.take(prev_bytes.len() as int) =~= prev_bytes);
                }
                assert(spec_blocks_of_bytes(prev_bytes)[i] == prev[i]);
            } else {
                assert(bytes.subrange(16 * i, 16 * i + 16) =~= spec_block_bytes(s[i]));
                lemma_block_of_block_bytes(s[i]);
                assert(spec_block_at(bytes, 16 * i) == spec_block_at(
                    bytes.subrange(16 * i, 16 * i + 16),
                    0,
                ));
            }
        }
        assert(spec_blocks_of_bytes(spec_bytes_of_blocks(s)) =~= s) by {
            lemma_bytes_of_blocks_len(s, s.len() as int);
        }
    } else {
        assert(spec_blocks_of_bytes(spec_bytes_of_blocks(s)) =~= s);
    }
}

/// The byte stream of `n` blocks holds `16 * n` bytes.
pub proof fn lemma_bytes_of_blocks_len(s: Seq<u128>, n: int)
    requires
        0 <= n,
    ensures
        spec_bytes_of_blocks_prefix(s, n).len() == 16 * n,
    decreases n,
{
    if n > 0 {
        lemma_bytes_of_blocks_len(s, n - 1);
    }
}

/// The byte prefix of `n` blocks depends only on those blocks.
proof fn lemma_bytes_of_blocks_prefix_congruence(a: Seq<u128>, b: Seq<u128>, n: int)
    requires
        0 <= n <= a.len(),
        n <= b.len(),
        forall|i: int| 0 <= i < n ==> a[i] == b[i],
    ensures
        spec_bytes_of_blocks_prefix(a, n) == spec_bytes_of_blocks_prefix(b, n),
    decreases n,
{
    if n > 0 {
        lemma_bytes_of_blocks_prefix_congruence(a, b, n - 1);
    }
}

} // verus!
