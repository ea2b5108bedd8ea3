//! Conversion of WOFF (Web Open Font Format, version 1) font containers into
//! SFNT-structured font files (TrueType/OpenType).
//!
//! The library works on in-memory bytes: callers hand it the complete WOFF
//! file and receive the complete SFNT file.  Per-table zlib decompression is
//! delegated to the `flate2` crate.

pub mod bytes;
pub mod convert;
pub mod errors;
pub mod inflate;
pub mod laws;
pub mod model;

pub use crate::bytes::read_u16_be;
pub use crate::bytes::read_u32_be;
pub use crate::bytes::write_u16_be;
pub use crate::bytes::write_u32_be;
pub use crate::convert::woff2otf;
pub use crate::errors::ConvertError;
