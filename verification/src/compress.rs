//! Compression of payloads, by the zstd codec at a fixed level.
//!
//! Both directions swallow codec failures: the caller gets the codec's
//! output, or an empty vector when the codec refused the input.

use vstd::prelude::*;

use crate::config::COMPRESS_LEVEL;

verus! {

/// Smallest capacity handed to the decompressor, one mebibyte.
pub const DECOMPRESS_MIN_CAPACITY: usize = 1048576;

/// Largest capacity handed to the decompressor, 64 mebibytes.
pub const DECOMPRESS_MAX_CAPACITY: usize = 67108864;

/// What the zstd compressor emits for these bytes at the fixed level: a
/// function of the input alone.
pub uninterp spec fn compressed_of(data: Seq<u8>) -> Seq<u8>;

/// What the zstd decompressor recovers from these bytes: a function of the
/// input alone, `None` where the input is not a zstd block.
pub uninterp spec fn decompressed_of(data: Seq<u8>) -> Option<Seq<u8>>;

/// Relies on `zstd::bulk::compress` at level `COMPRESS_LEVEL`: the output
/// depends on the input bytes alone.
#[verifier::external_body]
fn zstd_compress(data: &Vec<u8>) -> (r: Option<Vec<u8>>)
    ensures
        r matches Some(v) ==> v@ == compressed_of(data@),
{
    zstd::bulk::compress(data.as_slice(), COMPRESS_LEVEL).ok()
}

/// Relies on `zstd::bulk::decompress`: what it recovers depends on the
/// input bytes alone and fits in the capacity it was given.
#[verifier::external_body]
fn zstd_decompress(data: &Vec<u8>, capacity: usize) -> (r: Option<Vec<u8>>)
    ensures
        r matches Some(v) ==> decompressed_of(data@) == Some(v@) && v@.len() <= capacity,
{
    zstd::bulk::decompress(data.as_slice(), capacity).ok()
}

/// The capacity offered to the decompressor for an input of `len` bytes:
/// thirty times the input, clamped to the fixed bounds.
pub open spec fn spec_decompress_capacity(len: nat) -> nat {
    if 30 * len < DECOMPRESS_MIN_CAPACITY {
        DECOMPRESS_MIN_CAPACITY as nat
    } else if 30 * len > DECOMPRESS_MAX_CAPACITY {
        DECOMPRESS_MAX_CAPACITY as nat
    } else {
        30 * len
    }
}

/// Computes `spec_decompress_capacity` without overflow.
pub fn decompress_capacity(len: usize) -> (r: usize)
    ensures
        r == spec_decompress_capacity(len as nat),
{
    if len > DECOMPRESS_MAX_CAPACITY / 30 {
        DECOMPRESS_MAX_CAPACITY
    } else {
        let n = 30 * len;
        if n < DECOMPRESS_MIN_CAPACITY {
            DECOMPRESS_MIN_CAPACITY
        } else {
            n
        }
    }
}

/// Compresses `data`; an input the codec refuses yields an empty vector.
pub fn compress(data: &Vec<u8>) -> (r: Vec<u8>)
    ensures
        r@ == compressed_of(data@) || r@ == Seq::<u8>::empty(),
{
    match zstd_compress(data) {
        Some(v) => v,
        None => Vec::new(),
    }
}

/// Decompresses `data` with the bounded capacity of
/// `spec_decompress_capacity`; an input the codec refuses, or whose content
/// exceeds that capacity, yields an empty vector.
pub fn decompress(data: &Vec<u8>) -> (r: Vec<u8>)
    ensures
        decompressed_of(data@) == Some(r@) || r@ == Seq::<u8>::empty(),
{
    let capacity = decompress_capacity(data.len());
    match zstd_decompress(data, capacity) {
        Some(v) => v,
        None => Vec::new(),
    }
}

} // verus!
