//! The calls this library makes into outside crates, with what each is trusted to do.
use vstd::prelude::*;

verus! {

/// `std::io::Error`, returned by the zstd bulk API.
#[verifier::external_type_specification]
#[verifier::external_body]
pub struct ExIoError(std::io::Error);

/// `serde_json::Error`, carried by the CRDT errors of encoding and decoding.
#[verifier::external_type_specification]
#[verifier::external_body]
pub struct ExJsonError(serde_json::Error);

/// `Clone` of `std::time::Duration`, a `Copy` type: the clone is the value itself.
pub assume_specification[ <std::time::Duration as Clone>::clone ](d: &std::time::Duration) -> (r: std::time::Duration)
    ensures
        r == *d,
;

/// CRC-32 (IEEE) of a byte sequence, as computed by `crc32fast::hash`.
pub uninterp spec fn crc32_of(data: Seq<u8>) -> u32;

/// Bytes produced by `zstd::bulk::compress(data, level)`, or `None` when that call fails.
pub uninterp spec fn zstd_compressed(data: Seq<u8>, level: i32) -> Option<Seq<u8>>;

/// Bytes produced by `zstd::bulk::decompress(data, capacity)`, or `None` when that call fails.
pub uninterp spec fn zstd_decompressed(data: Seq<u8>, capacity: usize) -> Option<Seq<u8>>;

/// Calls `crc32fast::hash`; trusted to be a function of the bytes alone.
#[verifier::external_body]
pub fn crc32_hash(data: &[u8]) -> (h: u32)
    ensures
        h == crc32_of(data@),
{
    crc32fast::hash(data)
}

/// Calls `zstd::bulk::compress`; trusted to be a function of the bytes and the
/// level, and to produce a frame that `zstd::bulk::decompress` turns back into
/// the original bytes whenever the capacity it is given is at least their length.
#[verifier::external_body]
pub fn zstd_compress(data: &[u8], level: i32) -> (res: Result<Vec<u8>, std::io::Error>)
    ensures
        match zstd_compressed(data@, level) {
            Some(c) => res matches Ok(v) && v@ == c,
            None => res is Err,
        },
        res matches Ok(v) ==> forall|capacity: usize|
            #![trigger zstd_decompressed(v@, capacity)]
            data@.len() <= capacity ==> zstd_decompressed(v@, capacity) == Some(data@),
{
    zstd::bulk::compress(data, level)
}

/// Calls `zstd::bulk::decompress`; trusted to be a function of the bytes and the
/// capacity, and never to return more than `capacity` bytes.
#[verifier::external_body]
pub fn zstd_decompress(data: &[u8], capacity: usize) -> (res: Result<Vec<u8>, std::io::Error>)
    ensures
        match zstd_decompressed(data@, capacity) {
            Some(d) => res matches Ok(v) && v@ == d,
            None => res is Err,
        },
        res matches Ok(v) ==> v@.len() <= capacity,
{
    zstd::bulk::decompress(data, capacity)
}

/// `s` is the text that the valid UTF-8 bytes `bytes` encode.
pub open spec fn utf8_string_ok(bytes: Seq<u8>, s: String) -> bool {
    vstd::utf8::valid_utf8(bytes) && s@ == vstd::utf8::decode_utf8(bytes)
}

/// Calls `String::from_utf8`, which succeeds exactly on valid UTF-8 and then
/// holds the text those bytes encode.
#[verifier::external_body]
pub fn string_from_utf8(bytes: Vec<u8>) -> (res: Result<String, ()>)
    ensures
        res is Ok <==> vstd::utf8::valid_utf8(bytes@),
        res matches Ok(s) ==> utf8_string_ok(bytes@, s),
{
    match String::from_utf8(bytes) {
        Ok(s) => Ok(s),
        Err(_) => Err(()),
    }
}

} // verus!
