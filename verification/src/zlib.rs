//! zlib compression of file blocks, done by the `flate2` crate.
use vstd::prelude::*;
use std::io::{Read, Write};
use flate2::Compression;
use flate2::read::ZlibDecoder;
use flate2::write::ZlibEncoder;
use crate::cursor::IoError;

verus! {

/// What `flate2`'s `ZlibEncoder` at the default level (6) produces for `data`.
pub uninterp spec fn zlib_compressed(data: Seq<u8>) -> Seq<u8>;

/// Whether `flate2`'s `ZlibEncoder` at the default level, writing into a
/// `Vec`, completes for `data` (its outcome depends on the data alone).
pub uninterp spec fn zlib_compress_ok(data: Seq<u8>) -> bool;

/// What `flate2`'s `ZlibDecoder` yields for `data`: the decompressed bytes, or
/// the kind of the error it reports.
pub uninterp spec fn zlib_decompressed(data: Seq<u8>) -> Result<Seq<u8>, IoError>;

/// Compresses `data` with `flate2::write::ZlibEncoder` at the default level,
/// writing into a `Vec` (`write_all`, then `finish`). When it succeeds, the
/// result is the encoder's output for `data`, and decoding that output gives
/// `data` back (the round trip that flate2's documentation demonstrates).
/// Writing into a `Vec` does not fail in practice, but the encoder's
/// signature allows it, so whether it completes is named rather than ruled
/// out: it is a function of the data.
#[verifier::external_body]
pub(crate) fn zlib_compress(data: &[u8]) -> (r: Option<Vec<u8>>)
    ensures
        r is Some <==> zlib_compress_ok(data@),
        r matches Some(v) ==> v@ == zlib_compressed(data@) && (zlib_decompressed(v@) matches Ok(d) && d == data@),
{
    let mut encoder = ZlibEncoder::new(Vec::new(), Compression::default());
    match encoder.write_all(data) {
        Ok(()) => {},
        Err(_) => return None,
    }
    encoder.finish().ok()
}

/// Decompresses `data` with `flate2::read::ZlibDecoder` (`read_to_end`).
/// The outcome depends on `data` alone: success with the decoder's output,
/// or failure exactly where the decoder reports an error. Reading from a
/// slice, the decoder reports `UnexpectedEof` for a cut stream and
/// `InvalidInput` for a corrupt one; those kinds are passed on, and any
/// other kind becomes `InvalidData`. Which kind comes for which data is
/// named, not stated.
#[verifier::external_body]
pub(crate) fn zlib_decompress(data: &[u8]) -> (r: Result<Vec<u8>, IoError>)
    ensures
        match r {
            Ok(v) => zlib_decompressed(data@) matches Ok(d) && d == v@,
            Err(k) => zlib_decompressed(data@) matches Err(j) && j == k,
        },
{
    let mut out = Vec::new();
    match ZlibDecoder::new(data).read_to_end(&mut out) {
        Ok(_) => Ok(out),
        Err(e) => Err(match e.kind() {
            std::io::ErrorKind::UnexpectedEof => IoError::UnexpectedEof,
            std::io::ErrorKind::InvalidInput => IoError::InvalidInput,
            _ => IoError::InvalidData,
        }),
    }
}

} // verus!
