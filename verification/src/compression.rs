pub mod blz;

use crate::text::{decimal, usize_to_decimal};
use vstd::prelude::*;

verus! {

/// Why a compressed block could not be expanded.
#[derive(Debug, Clone, Copy, PartialEq, Eq, Structural)]
pub enum CompressionError {
    /// A back-reference or a literal pointed outside the buffers.
    BlzOutOfBounds { src: usize, dst: usize },
    /// The data was not compressed.
    NotCompressed,
}

/// The description of a compression error.
pub open spec fn spec_compression_message(e: CompressionError) -> Seq<char> {
    match e {
        CompressionError::BlzOutOfBounds { src, dst } => "BLZ decompression out of bounds: src="@ + decimal(src as nat) + ", dst="@
            + decimal(dst as nat),
        CompressionError::NotCompressed => "The data was not compressed"@,
    }
}

impl CompressionError {
    /// The human-readable description of the error.
    pub fn message(&self) -> (r: String)
        ensures
            r@ == spec_compression_message(*self),
    {
        match self {
            CompressionError::BlzOutOfBounds { src, dst } => {
                let mut r = String::from_str("BLZ decompression out of bounds: src=");
                r.append(usize_to_decimal(*src).as_str());
                r.append(", dst=");
                r.append(usize_to_decimal(*dst).as_str());
                r
            },
            CompressionError::NotCompressed => String::from_str("The data was not compressed"),
        }
    }
}

} // verus!
