//! The envelope of a payload: one byte that says whether the rest is
//! compressed, and the rest.

use crate::binary::errors::DecoderError;
use vstd::prelude::*;
use vstd::slice::{slice_subrange, slice_to_vec};

verus! {

/// What the zlib stream `data` inflates to, where it is one.
pub uninterp spec fn zlib_inflated(data: Seq<u8>) -> Option<Seq<u8>>;

/// `flate2::read::ZlibDecoder`, read to its end: gives the bytes that the
/// stream inflates to, or nothing where reading fails. The contract only
/// names that result.
#[verifier::external_body]
fn zlib_inflate(data: &[u8]) -> (inflated: Option<Vec<u8>>)
    ensures
        match inflated {
            Some(bytes) => zlib_inflated(data@) == Some(bytes@),
            None => zlib_inflated(data@) is None,
        },
{
    let mut decoder = flate2::read::ZlibDecoder::new(data);
    let mut bytes = Vec::new();
    match std::io::Read::read_to_end(&mut decoder, &mut bytes) {
        Ok(_) => Some(bytes),
        Err(_) => None,
    }
}

/// Whether the first byte of a payload says that the rest is compressed:
/// its second lowest bit is set.
pub open spec fn is_compressed(first: u8) -> bool {
    (first / 2) % 2 == 1
}

/// What a payload unpacks to: the bytes behind the first one, inflated
/// where the first byte says so.
pub open spec fn unpacked(data: Seq<u8>) -> Result<Seq<u8>, DecoderError> {
    if data.len() == 0 {
        Err(DecoderError::ErrUnexpectedEnd)
    } else if is_compressed(data[0]) {
        match zlib_inflated(data.subrange(1, data.len() as int)) {
            Some(bytes) => Ok(bytes),
            None => Err(DecoderError::ErrDecompressFailed),
        }
    } else {
        Ok(data.subrange(1, data.len() as int))
    }
}

/// The result of unpacking a compressed payload, given what inflating it
/// gave: the bytes, or `ErrDecompressFailed`.
pub fn inflate_result(inflated: Option<Vec<u8>>) -> (bytes: Result<Vec<u8>, DecoderError>)
    ensures
        match inflated {
            Some(b) => bytes is Ok && bytes->Ok_0@ == b@,
            None => bytes == Err::<Vec<u8>, DecoderError>(DecoderError::ErrDecompressFailed),
        },
{
    match inflated {
        Some(b) => Ok(b),
        None => Err(DecoderError::ErrDecompressFailed),
    }
}

/// Unpacks a payload: fails with `ErrUnexpectedEnd` on the empty payload,
/// gives the bytes behind the first one where that byte does not say
/// that they are compressed, and else what they inflate to, or
/// `ErrDecompressFailed`.
pub fn unpack_data(data: &Vec<u8>) -> (bytes: Result<Vec<u8>, DecoderError>)
    ensures
        match bytes {
            Ok(b) => unpacked(data@) == Ok::<Seq<u8>, DecoderError>(b@),
            Err(e) => unpacked(data@) == Err::<Seq<u8>, DecoderError>(e),
        },
{
    if data.len() == 0 {
        return Err(DecoderError::ErrUnexpectedEnd);
    }
    let data_type = data[0];
    let rest = slice_subrange(data.as_slice(), 1, data.len());
    assert((2 & data_type > 0) == ((data_type / 2) % 2 == 1)) by (bit_vector);
    if 2 & data_type > 0 {
        inflate_result(zlib_inflate(rest))
    } else {
        Ok(slice_to_vec(rest))
    }
}

/// An uncompressed payload unpacks to what stands behind its first byte.
pub proof fn law_unpack_plain(rest: Seq<u8>)
    ensures
        unpacked(seq![0u8] + rest) == Ok::<Seq<u8>, DecoderError>(rest),
        unpacked(Seq::empty()) == Err::<Seq<u8>, DecoderError>(DecoderError::ErrUnexpectedEnd),
{
    let data = seq![0u8] + rest;
    assert(data[0] == 0u8);
    assert(data.subrange(1, data.len() as int) =~= rest);
}

} // verus!
