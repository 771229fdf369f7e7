//! The session layer's pure core: the client error taxonomy, the
//! progress events and their percentage throttle, the mapping of
//! server verdicts to errors, and the client file pipeline — pad,
//! group into blocks, DEAL-RDH encrypt, flatten to bytes, and its
//! inverse. The sockets, threads and callbacks around these live
//! outside the crate and hand plain values in and out.

use vstd::prelude::*;
use crate::deal_modes::{spec_mode_decrypt, spec_mode_encrypt, DEALMode};
use crate::padding::{PaddingAlgorithm, PaddingPKSC7};
use crate::transfer::{
    spec_blocks_of_bytes, spec_bytes_of_blocks, u128_to_u8, u8_to_u128, Response,
};

verus! {

/// Why a client request failed.
#[derive(Clone, Copy, Debug, PartialEq, Eq, Structural)]
pub enum RequestProcessingError {
    NoConnection,
    BadRequest,
    ServerError,
    BadFile,
}

/// A progress event for the user interface, with the integer
/// percentage reached.
#[derive(Clone, Copy, Debug, PartialEq, Eq, Structural)]
pub enum OperationProgress {
    Connecting(u8),
    Encrypting(u8),
    Decrypting(u8),
    Uploading(u8),
    Downloading(u8),
}

/// The server verdict as the client reports it: `FSFail` is a server
/// store failure, `CommFail` a protocol mismatch.
pub fn response_to_result(r: Response) -> (res: Result<(), RequestProcessingError>)
    ensures
        res == (match r {
            Response::Success => Ok::<(), RequestProcessingError>(()),
            Response::FSFail => Err(RequestProcessingError::ServerError),
            Response::CommFail => Err(RequestProcessingError::BadRequest),
        }),
{
    match r {
        Response::Success => Ok(()),
        Response::FSFail => Err(RequestProcessingError::ServerError),
        Response::CommFail => Err(RequestProcessingError::BadRequest),
    }
}

/// Whether the `cnt`-th of `len` ticks crosses an integer percentage
/// boundary, and the percentage to report when it does: the reporter
/// invokes its callback exactly on `Some`.
pub fn progress_update(cnt: usize, len: usize) -> (r: Option<u8>)
    requires
        1 <= len,
        cnt <= len,
        (len + 1) * 100 <= usize::MAX,
    ensures
        ({
            let pct = ((cnt * 100) as int) / (len as int);
            let nxt = (((cnt + 1) * 100) as int) / (len as int);
            r == (if pct < nxt {
                Some((pct + 1) as u8)
            } else {
                None::<u8>
            })
        }),
{
    proof {
        assert(((cnt * 100) as int) / (len as int) <= 100 && (cnt * 100) <= usize::MAX && ((cnt
            + 1) * 100) <= usize::MAX) by (nonlinear_arith)
            requires
                1 <= len,
                cnt <= len,
                (len + 1) * 100 <= usize::MAX,
        ;
    }
    let pct = cnt * 100 / len;
    if pct < (cnt + 1) * 100 / len {
        Some((pct + 1) as u8)
    } else {
        None
    }
}

/// The PKCS#7 instance of the pipeline: block size 16.
pub open spec fn spec_pipeline_padder() -> PaddingPKSC7 {
    PaddingPKSC7 { block_size: 16 }
}

/// The byte stream the client sends for a file: the plaintext padded,
/// grouped into 128-bit blocks, DEAL-RDH encrypted under `key` with
/// initialization value `iv`, and flattened back to bytes.
pub open spec fn spec_encrypt_file(key: u128, iv: u128, contents: Seq<u8>) -> Seq<u8> {
    spec_bytes_of_blocks(
        spec_mode_encrypt(
            DEALMode::RDH,
            key,
            iv,
            spec_blocks_of_bytes(spec_pipeline_padder().spec_apply(contents)),
        ),
    )
}

/// The plaintext the client recovers from a received byte stream, or
/// the error it reports: a stream that does not parse, fails the RDH
/// integrity check, or unpads impossibly is a bad file.
pub open spec fn spec_decrypt_file(key: u128, data: Seq<u8>) -> Result<
    Seq<u8>,
    RequestProcessingError,
> {
    if data.len() % 16 != 0 {
        Err(RequestProcessingError::BadFile)
    } else {
        let blocks = spec_blocks_of_bytes(data);
        if blocks.len() < 2 {
            Err(RequestProcessingError::BadFile)
        } else {
            match spec_mode_decrypt(DEALMode::RDH, key, blocks) {
                Result::Err(_) => Err(RequestProcessingError::BadFile),
                Result::Ok(payload) => {
                    let bytes = spec_bytes_of_blocks(payload);
                    if bytes.len() >= 1 && bytes.last() as int <= bytes.len() {
                        Ok(spec_pipeline_padder().spec_remove(bytes))
                    } else {
                        Err(RequestProcessingError::BadFile)
                    }
                },
            }
        }
    }
}

/// Encrypt a file for upload: the result is pinned block for block
/// once the drawn initialization value is fixed.
pub fn encrypt_file(contents: Vec<u8>, key: u128) -> (r: Vec<u8>)
    requires
        contents@.len() + 48 <= usize::MAX,
    ensures
        exists|iv: u128|
            iv < (1u128 << 127) && r@ == #[trigger] spec_encrypt_file(key, iv, contents@),
{
    let padder = PaddingPKSC7::with_block_size(16);
    let mut padded = contents;
    padder.apply_padding(&mut padded);
    proof {
        assert(padded@.len() % 16 == 0) by (nonlinear_arith)
            requires
                padded@.len() == contents@.len() + (16 - contents@.len() % 16),
        ;
    }
    proof {
        vstd::arithmetic::div_mod::lemma_fundamental_div_mod(padded@.len() as int, 16);
    }
    let blocks = u8_to_u128(padded);
    let ghost blocks0 = blocks@;
    let enc = DEALMode::RDH.encrypt(blocks, key);
    let out = u128_to_u8(enc);
    proof {
        let iv = choose|iv: u128|
            iv < (1u128 << 127) && enc@ == spec_mode_encrypt(DEALMode::RDH, key, iv, blocks0);
        assert(out@ == spec_encrypt_file(key, iv, contents@));
    }
    out
}

/// Decrypt a received file; every way the stream can be unusable is
/// reported as `BadFile`, never a panic.
pub fn decrypt_file(data: Vec<u8>, key: u128) -> (r: Result<Vec<u8>, RequestProcessingError>)
    ensures
        r is Ok <==> spec_decrypt_file(key, data@) is Ok,
        r is Ok ==> r->Ok_0@ == spec_decrypt_file(key, data@)->Ok_0,
        r is Err ==> r->Err_0 == spec_decrypt_file(key, data@)->Err_0,
{
    let ghost data0 = data@;
    if data.len() % 16 != 0 {
        return Err(RequestProcessingError::BadFile);
    }
    let blocks = u8_to_u128(data);
    if blocks.len() < 2 {
        return Err(RequestProcessingError::BadFile);
    }
    proof {
        vstd::arithmetic::div_mod::lemma_fundamental_div_mod(data0.len() as int, 16);
    }
    let payload = match DEALMode::RDH.decrypt(blocks, key) {
        Ok(p) => p,
        Err(()) => {
            return Err(RequestProcessingError::BadFile);
        },
    };
    let mut bytes = u128_to_u8(payload);
    if bytes.len() == 0 {
        return Err(RequestProcessingError::BadFile);
    }
    let last = bytes[bytes.len() - 1];
    if (last as usize) > bytes.len() {
        return Err(RequestProcessingError::BadFile);
    }
    let padder = PaddingPKSC7::with_block_size(16);
    padder.remove_padding(&mut bytes);
    Ok(bytes)
}

/// The client pipeline round-trips: decrypting an encrypted file
/// under the same key recovers the plaintext exactly, for every key,
/// every drawn initialization value and every plaintext.
pub proof fn lemma_file_round_trip(key: u128, iv: u128, contents: Seq<u8>)
    ensures
        spec_decrypt_file(key, spec_encrypt_file(key, iv, contents)) == Ok::<
            Seq<u8>,
            RequestProcessingError,
        >(contents),
{
    let padder = spec_pipeline_padder();
    let padded = padder.spec_apply(contents);
    assert(padded.len() % 16 == 0) by (nonlinear_arith)
        requires
            padded.len() == contents.len() + (16 - contents.len() % 16),
    ;
    let blocks = spec_blocks_of_bytes(padded);
    let enc = spec_mode_encrypt(DEALMode::RDH, key, iv, blocks);
    let data = spec_encrypt_file(key, iv, contents);
    crate::transfer::lemma_blocks_bytes_round_trip(enc);
    assert(data.len() % 16 == 0) by {
        assert(spec_blocks_of_bytes(data) == enc);
        assert(data.len() == spec_bytes_of_blocks(enc).len());
        crate::transfer::lemma_bytes_of_blocks_len(enc, enc.len() as int);
    }
    crate::deal_modes::lemma_mode_round_trip(DEALMode::RDH, key, iv, blocks);
    crate::transfer::lemma_bytes_blocks_round_trip(padded);
    crate::padding::lemma_pkcs7_round_trip(padder, contents);
    assert(padded.last() == padder.pad_len(contents.len()) as u8);
}

} // verus!
