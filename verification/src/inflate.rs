//! Decompression of the zlib stream inside a compressed section.

use vstd::prelude::*;
use crate::error::PfsError;
use crate::parser::PfsCompressedSection;

verus! {

/// What inflating a zlib stream gives: the decompressed bytes, or `None`
/// where the bytes are not a valid stream.
pub uninterp spec fn zlib_inflated(data: Seq<u8>) -> Option<Seq<u8>>;

/// `flate2::read::ZlibDecoder` over the bytes, read to its end with
/// `std::io::Read::read_to_end`. The decoder gives the decompressed bytes, or
/// an error for a corrupt or incomplete stream. The contract only names the
/// outcome: the same bytes always decode alike.
#[verifier::external_body]
fn zlib_inflate(data: &[u8]) -> (out: Option<Vec<u8>>)
    ensures
        match out {
            Some(bytes) => zlib_inflated(data@) == Some(bytes@),
            None => zlib_inflated(data@) is None,
        },
{
    let mut decoder = flate2::read::ZlibDecoder::new(data);
    let mut bytes: Vec<u8> = Vec::new();
    match std::io::Read::read_to_end(&mut decoder, &mut bytes) {
        Ok(_) => Some(bytes),
        Err(_) => None,
    }
}

/// Inflates the payload of a compressed section.
pub fn pfs_inflate<'a>(section: &PfsCompressedSection<'a>) -> (r: Result<Vec<u8>, PfsError>)
    ensures
        match r {
            Ok(bytes) => zlib_inflated(section.data@) == Some(bytes@),
            Err(e) => e == PfsError::DecompressionFailure && zlib_inflated(section.data@) is None,
        },
{
    match zlib_inflate(section.data) {
        Some(bytes) => Ok(bytes),
        None => Err(PfsError::DecompressionFailure),
    }
}

} // verus!
