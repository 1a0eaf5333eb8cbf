//! The errors of the container codec and the cipher pipeline.

use vstd::prelude::*;

verus! {

/// Why an operation failed.
#[derive(Debug, Clone, Copy, PartialEq, Eq, Structural)]
pub enum PngError {
    /// The first eight bytes are not the PNG signature.
    InvalidFormat,
    /// Fewer bytes remain than the chunk layout requires, or the stream
    /// ended while an image-data chunk was still expected.
    Truncated,
    /// A chunk type is not valid text, or recovered bytes are not valid base64.
    Decode,
    /// A ciphertext is shorter than its initialization vector.
    MalformedCiphertext,
    /// The stream ended before a secret chunk was found.
    ChunkNotFound,
    /// A cipher key is not 32 bytes long.
    InvalidKeyLength,
    /// Chunk data does not fit the 32-bit length field.
    TooLarge,
}

impl PngError {
    /// A short description of the error.
    pub fn message(&self) -> (r: &'static str)
        ensures
            match self {
                PngError::InvalidFormat => r@ == "Invalid file format"@,
                PngError::Truncated => r@ == "Unexpected end of input"@,
                PngError::Decode => r@ == "Invalid encoding"@,
                PngError::MalformedCiphertext => r@ == "Ciphertext is shorter than its IV"@,
                PngError::ChunkNotFound => r@ == "No secret chunk found"@,
                PngError::InvalidKeyLength => r@ == "Invalid key length"@,
                PngError::TooLarge => r@ == "Data too large for a chunk"@,
            },
    {
        match self {
            PngError::InvalidFormat => "Invalid file format",
            PngError::Truncated => "Unexpected end of input",
            PngError::Decode => "Invalid encoding",
            PngError::MalformedCiphertext => "Ciphertext is shorter than its IV",
            PngError::ChunkNotFound => "No secret chunk found",
            PngError::InvalidKeyLength => "Invalid key length",
            PngError::TooLarge => "Data too large for a chunk",
        }
    }
}

} // verus!
