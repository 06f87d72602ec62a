//! Sha3 digests of register contents.

use sha3::Digest;
use vstd::prelude::*;
use crate::arith::res_view;
use crate::instr::FaultKind;

verus! {

/// The SHA3-224 digest of `data`.
pub uninterp spec fn sha3_224_of(data: Seq<u8>) -> Seq<u8>;

/// The SHA3-256 digest of `data`.
pub uninterp spec fn sha3_256_of(data: Seq<u8>) -> Seq<u8>;

/// The SHA3-384 digest of `data`.
pub uninterp spec fn sha3_384_of(data: Seq<u8>) -> Seq<u8>;

/// The SHA3-512 digest of `data`.
pub uninterp spec fn sha3_512_of(data: Seq<u8>) -> Seq<u8>;

/// Relies on `sha3::Sha3_224` through `digest::Digest::digest`: the digest of `data`,
/// whose output size is 28 bytes.
#[verifier::external_body]
fn sha3_224(data: &Vec<u8>) -> (r: Vec<u8>)
    ensures
        r@ == sha3_224_of(data@),
        r@.len() == 28,
{
    sha3::Sha3_224::digest(data.as_slice()).to_vec()
}

/// Relies on `sha3::Sha3_256` through `digest::Digest::digest`: the digest of `data`,
/// whose output size is 32 bytes.
#[verifier::external_body]
fn sha3_256(data: &Vec<u8>) -> (r: Vec<u8>)
    ensures
        r@ == sha3_256_of(data@),
        r@.len() == 32,
{
    sha3::Sha3_256::digest(data.as_slice()).to_vec()
}

/// Relies on `sha3::Sha3_384` through `digest::Digest::digest`: the digest of `data`,
/// whose output size is 48 bytes.
#[verifier::external_body]
fn sha3_384(data: &Vec<u8>) -> (r: Vec<u8>)
    ensures
        r@ == sha3_384_of(data@),
        r@.len() == 48,
{
    sha3::Sha3_384::digest(data.as_slice()).to_vec()
}

/// Relies on `sha3::Sha3_512` through `digest::Digest::digest`: the digest of `data`,
/// whose output size is 64 bytes.
#[verifier::external_body]
fn sha3_512(data: &Vec<u8>) -> (r: Vec<u8>)
    ensures
        r@ == sha3_512_of(data@),
        r@.len() == 64,
{
    sha3::Sha3_512::digest(data.as_slice()).to_vec()
}

/// The digest that fills an output register of `out_len` bytes: the Sha3 variant whose
/// digest has that length.
pub open spec fn sha3_result(data: Seq<u8>, out_len: nat) -> Result<Seq<u8>, FaultKind> {
    if out_len == 28 {
        Ok(sha3_224_of(data))
    } else if out_len == 32 {
        Ok(sha3_256_of(data))
    } else if out_len == 48 {
        Ok(sha3_384_of(data))
    } else if out_len == 64 {
        Ok(sha3_512_of(data))
    } else {
        Err(FaultKind::UnsupportedDigest)
    }
}

/// The Sha3 digest of `data` of `out_len` bytes.
pub fn sha3_digest(data: &Vec<u8>, out_len: usize) -> (r: Result<Vec<u8>, FaultKind>)
    ensures
        res_view(r) == sha3_result(data@, out_len as nat),
        r is Ok ==> r->Ok_0@.len() == out_len,
{
    if out_len == 28 {
        Ok(sha3_224(data))
    } else if out_len == 32 {
        Ok(sha3_256(data))
    } else if out_len == 48 {
        Ok(sha3_384(data))
    } else if out_len == 64 {
        Ok(sha3_512(data))
    } else {
        Err(FaultKind::UnsupportedDigest)
    }
}

} // verus!
