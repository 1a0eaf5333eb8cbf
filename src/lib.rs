//! Hides an encrypted secret inside a PNG file as a custom chunk, and
//! recovers it again.
//!
//! The container codec (signature, chunk framing, checksums) and the
//! cipher pipeline (key derivation, IV handling, base64 armouring) are
//! verified; the hash, cipher, checksum, base64 and randomness primitives
//! come from their crates behind small trusted wrappers.

pub mod bytes;
pub mod chunk;
pub mod error;
pub mod container;
pub mod cipher;
pub mod pipeline;

pub use chunk::{create_chunk, read_chunk, Chunk};
pub use cipher::{decrypt, decrypt_data, derive_key, encrypt, encrypt_data, encrypt_with_iv};
pub use container::{extract_secret_chunk, insert_secret_chunk, next_chunk, validate_png, CHUNK_NAME};
pub use error::PngError;
pub use pipeline::{decrypt_png, encrypt_png, encrypt_png_with_iv};
