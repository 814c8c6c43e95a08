//! Key derivation, the chunk cipher and the two stream drivers.

pub mod error;
pub mod primitives;
pub mod nonce;
pub mod kdf;
pub mod encrypt_chunk;
pub mod decrypt_chunk;
pub mod stream;
pub mod context;
pub mod encrypt;
pub mod decrypt;
