//! Compression for stored values.
//!
//! Every value the cache stores is gzip-compressed before the write and
//! decompressed after the read, transparently to callers. What matters
//! to the rest of the library is only that decompressing a compressed
//! payload gives the payload back.

use vstd::prelude::*;
use std::io::Read;
use std::io::Write;

verus! {

/// The gzip stream that flate2 produces for these bytes at best
/// compression, with the default header (no timestamp, unknown origin).
pub uninterp spec fn gz_of(data: Seq<u8>) -> Seq<u8>;

/// What a gzip stream decompresses to: the original bytes, or nothing
/// when the stream is not a well-formed gzip stream.
pub uninterp spec fn gunzip_of(data: Seq<u8>) -> Option<Seq<u8>>;

/// Relies on flate2's `GzEncoder`: writing all input and finishing
/// yields one complete gzip stream, a function of the input bytes alone
/// (fixed compression level, default header fields), and flate2's
/// `GzDecoder` reads the original bytes back from it.
#[verifier::external_body]
pub fn gzip_compress(data: &[u8]) -> (r: Vec<u8>)
    ensures
        r@ == gz_of(data@),
        gunzip_of(r@) == Some(data@),
{
    let mut encoder = flate2::write::GzEncoder::new(Vec::new(), flate2::Compression::best());
    encoder.write_all(data).unwrap();
    encoder.finish().unwrap()
}

/// Relies on flate2's `GzDecoder`: reading the stream to its end yields
/// the bytes the stream compresses, and fails exactly when the stream is
/// not a well-formed gzip stream.
#[verifier::external_body]
pub fn gzip_decompress(data: &[u8]) -> (r: Option<Vec<u8>>)
    ensures
        match r {
            Some(v) => gunzip_of(data@) == Some(v@),
            None => gunzip_of(data@) is None,
        },
{
    let mut decoder = flate2::read::GzDecoder::new(data);
    let mut decompressed = Vec::new();
    match decoder.read_to_end(&mut decompressed) {
        Ok(_) => Some(decompressed),
        Err(_) => None,
    }
}

/// Compressing and decompressing gives the payload back unchanged, for
/// any byte payload.
pub fn gzip_round_trip(data: &[u8]) -> (r: Option<Vec<u8>>)
    ensures
        r matches Some(v) && v@ == data@,
{
    let compressed = gzip_compress(data);
    let restored = gzip_decompress(compressed.as_slice());
    match restored {
        Some(v) => Some(v),
        None => {
            proof {
                assert(false);
            }
            None
        },
    }
}

} // verus!
