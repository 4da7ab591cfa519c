//! Gzip compression and decompression through flate2, as pure byte-vector
//! functions. Both results are functions of the input bytes alone, so each
//! is given a name that the pipeline's contracts use.

use vstd::prelude::*;

verus! {

/// The gzip stream flate2's encoder writes for `data` at the default level.
pub uninterp spec fn gzip_of(data: Seq<u8>) -> Seq<u8>;

/// What flate2's decoder recovers from a gzip stream: `None` when the bytes
/// are not a well-formed stream.
pub uninterp spec fn gunzip_of(data: Seq<u8>) -> Option<Seq<u8>>;

/// Relies on flate2's write::GzEncoder over a byte vector at the default
/// compression level: deterministic output for given input, which the
/// decoder recovers exactly; writing into a Vec cannot fail.
#[verifier::external_body]
pub(crate) fn gzip_compress(data: &Vec<u8>) -> (r: Vec<u8>)
    ensures
        r@ == gzip_of(data@),
        gunzip_of(r@) == Some(data@),
{
    let mut enc = flate2::write::GzEncoder::new(Vec::new(), flate2::Compression::default());
    std::io::Write::write_all(&mut enc, data.as_slice()).unwrap();
    enc.finish().unwrap()
}

/// Relies on flate2's read::GzDecoder over a byte slice: decoding is a
/// function of the input bytes alone, and reading to the end fails exactly
/// when they are not a well-formed gzip stream.
#[verifier::external_body]
pub(crate) fn gzip_decompress(data: &Vec<u8>) -> (r: Option<Vec<u8>>)
    ensures
        match r {
            Some(v) => gunzip_of(data@) == Some(v@),
            None => gunzip_of(data@) is None,
        },
{
    let mut dec = flate2::read::GzDecoder::new(data.as_slice());
    let mut out: Vec<u8> = Vec::new();
    match std::io::Read::read_to_end(&mut dec, &mut out) {
        Ok(_) => Some(out),
        Err(_) => None,
    }
}

} // verus!
