//! Gzip compression behind a trusted wrapper. When the response advertises
//! `Content-Encoding: gzip`, the body written is the compressed form of the
//! payload, never the raw bytes under a gzip label.
use vstd::prelude::*;

verus! {

/// The gzip encoding of `data` at the fixed compression level this crate
/// uses. The encoding is far too involved to write out; the name stands for
/// it, and nothing more is assumed of it.
pub uninterp spec fn gzip_of(data: Seq<u8>) -> Seq<u8>;

/// Relies on flate2's `write::GzEncoder` (with its pure-Rust backend) at a
/// fixed compression level: the output depends on the input bytes alone —
/// flate2 writes a gzip header with a zero timestamp and a fixed
/// operating-system byte precisely so that streams are reproducible — so the
/// result is named `gzip_of(data@)`. Writing into a `Vec` cannot fail, so
/// `finish` cannot return an error here.
#[verifier::external_body]
pub fn gzip_compress(data: &Vec<u8>) -> (r: Vec<u8>)
    ensures
        r@ == gzip_of(data@),
{
    let mut enc = flate2::write::GzEncoder::new(Vec::new(), flate2::Compression::new(6));
    let _ = std::io::Write::write_all(&mut enc, data.as_slice());
    match enc.finish() {
        Ok(v) => v,
        Err(_) => Vec::new(),
    }
}

} // verus!
