//! Gzip compression of response bodies, done by flate2.

use vstd::prelude::*;

verus! {

/// The gzip stream that flate2 produces for `data` at its default level and
/// with its default header.
pub uninterp spec fn gzip_of(data: Seq<u8>) -> Seq<u8>;

/// Relies on flate2's `GzEncoder` (`new`, `write_all`, `finish`) writing into
/// a `Vec`: the vector then holds the compressed stream of `data`. Writing
/// into a `Vec` does not fail, and the default level is a valid parameter of
/// the deflate backend, so neither step reports an error.
#[verifier::external_body]
pub(crate) fn gzip(data: &[u8]) -> (r: Vec<u8>)
    ensures
        r@ == gzip_of(data@),
{
    let mut encoder = flate2::write::GzEncoder::new(Vec::new(), flate2::Compression::default());
    std::io::Write::write_all(&mut encoder, data).expect("writing into a Vec does not fail");
    encoder.finish().expect("writing into a Vec does not fail")
}

} // verus!
