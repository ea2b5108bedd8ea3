use vstd::prelude::*;

verus! {

/// Everything that can stop a conversion.
///
/// A conversion either yields a complete SFNT file or one of these; there is
/// no partial output and no recovery.
#[derive(Clone, Copy, Debug, PartialEq, Eq, Structural)]
pub enum ConvertError {
    /// The input does not begin with the WOFF v1 magic bytes `wOFF`.
    InvalidSignature,
    /// The input ended before a fixed-size field or a declared table region.
    TruncatedInput,
    /// A computed table offset does not fit the 32-bit offset field of an
    /// SFNT directory entry, so no well-formed output exists.
    OutputTooLarge,
    /// A compressed table either failed to decompress or decompressed to
    /// fewer bytes than its declared original length.
    DecompressionFailure,
}

} // verus!
