//! The one outside capability the conversion needs: zlib decompression of a
//! table's stored bytes, provided by the `flate2` crate.

use vstd::prelude::*;

use vstd::math::min;

verus! {

/// The byte stream that zlib decompression yields for `data`.
///
/// The decompressed bytes are a function of the compressed bytes alone, so
/// they get a name here rather than a transcription of the deflate
/// algorithm; nothing in this crate claims what the bytes are on any given
/// input.
pub uninterp spec fn zlib_inflate(data: Seq<u8>) -> Seq<u8>;

/// Relies on `flate2::read::ZlibDecoder`: reading the decoder yields the
/// zlib-decompressed form of the wrapped bytes, here `data[start..end]`, and
/// fails on malformed or truncated compressed data.  `Read::take` stops the
/// copy after `limit` decompressed bytes.
#[verifier::external_body]
pub(crate) fn zlib_decompress(data: &[u8], start: usize, end: usize, limit: u64) -> (r: Option<
    Vec<u8>,
>)
    requires
        start <= end <= data@.len(),
    ensures
        (r matches Some(v) ==> v@ == zlib_inflate(data@.subrange(start as int, end as int)).take(
            min(
                limit as int,
                zlib_inflate(data@.subrange(start as int, end as int)).len() as int,
            ),
        )),
{
    let mut out = Vec::new();
    let decoder = flate2::read::ZlibDecoder::new(&data[start..end]);
    let mut rd = std::io::Read::take(decoder, limit);
    match std::io::Read::read_to_end(&mut rd, &mut out) {
        Ok(_) => Some(out),
        Err(_) => None,
    }
}

} // verus!
