//! Core of an end-to-end encrypted file-storage system: DEAL-128 block
//! cipher over the DES primitive with several streaming modes, PKCS#7
//! padding, XTR key agreement over GF(p^2), probabilistic primality
//! testing, the framed file transport codec, and the server's record
//! store model. Network and filesystem edges live outside this crate.

pub mod bigint;
pub mod deal;
pub mod deal_modes;
pub mod des;
pub mod gfp2;
pub mod padding;
pub mod primes;
pub mod rng;
pub mod session;
pub mod store;
pub mod traces;
pub mod transfer;
pub mod xtr;
pub mod xtr_wrapper;
