//! The pluggable codec capability: raw-deflate compression of a byte
//! buffer, used for entries stored with the Deflate method.
use vstd::prelude::*;

verus! {

/// The raw deflate stream that the codec emits for `data` at its
/// default compression level: a function of the input bytes alone.
pub uninterp spec fn deflate_of(data: Seq<u8>) -> Seq<u8>;

/// Relies on libdeflater's `Compressor::new`,
/// `deflate_compress_bound` and `deflate_compress` at the default
/// `CompressionLvl`: together they emit one raw deflate stream that
/// depends on the input bytes alone. `deflate_compress` fails only
/// for want of output space, and `deflate_compress_bound` is
/// documented as a hard worst-case upper bound on the stream's size
/// for any input of the given length, so compression into a buffer
/// of that size always succeeds.
#[verifier::external_body]
pub fn deflate_compress(data: &Vec<u8>) -> (r: Vec<u8>)
    ensures
        r@ == deflate_of(data@),
{
    let mut compressor = libdeflater::Compressor::new(libdeflater::CompressionLvl::default());
    let bound = compressor.deflate_compress_bound(data.len());
    let mut out = vec![0u8; bound];
    let actual = compressor
        .deflate_compress(data.as_slice(), &mut out)
        .unwrap();
    out.truncate(actual);
    out
}

} // verus!
