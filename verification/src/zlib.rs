//! The compression codec at the store's boundary.
//!
//! Every object is compressed with zlib before it reaches disk, and
//! decompressed on the way back. The codec is opaque to the store's logic:
//! all it needs is that inflation is deterministic and inverts compression.

use vstd::prelude::*;
use std::io::Read;
use std::io::Write;
use crate::Error;

verus! {

/// What zlib inflation yields on a byte stream: the decompressed bytes, or
/// nothing when the stream is not one zlib can decode. It is a fixed
/// function of the input bytes alone.
pub uninterp spec fn spec_inflate(s: Seq<u8>) -> Option<Seq<u8>>;

/// Relies on flate2::write::ZlibEncoder (write_all, finish) at the default
/// compression level: writing into an in-memory buffer cannot fail, and
/// inflating the encoder's output yields exactly the bytes written to it.
#[verifier::external_body]
pub fn zlib_compress(b: &Vec<u8>) -> (r: Vec<u8>)
    ensures
        spec_inflate(r@) == Some(b@),
{
    let mut enc = flate2::write::ZlibEncoder::new(Vec::new(), flate2::Compression::default());
    enc.write_all(b.as_slice()).expect("writing into an in-memory buffer cannot fail");
    enc.finish().expect("finishing into an in-memory buffer cannot fail")
}

/// Relies on flate2::read::ZlibDecoder (read_to_end): inflation is a
/// deterministic function of the compressed bytes; a corrupt or truncated
/// stream fails rather than yielding partial output.
#[verifier::external_body]
pub fn zlib_decompress(b: &Vec<u8>) -> (r: Result<Vec<u8>, Error>)
    ensures
        r matches Ok(v) ==> spec_inflate(b@) == Some(v@),
        r is Err ==> spec_inflate(b@) is None,
        r matches Err(e) ==> e == Error::Decompression,
{
    let mut dec = flate2::read::ZlibDecoder::new(b.as_slice());
    let mut out = Vec::new();
    match dec.read_to_end(&mut out) {
        Ok(_) => Ok(out),
        Err(_) => Err(Error::Decompression),
    }
}

} // verus!
