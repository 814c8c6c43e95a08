//! The failures an operation can end in.

use vstd::prelude::*;
use crate::format::header::HeaderError;

verus! {

/// Why an operation was abandoned. No operation that fails leaves a partial
/// result behind.
#[derive(Debug, Clone, Copy, PartialEq, Eq)]
pub enum CryptoError {
    /// The input is shorter than a header.
    TooSmall,
    /// A buffer does not have the length its role fixes.
    InvalidLength,
    /// The input does not start with the container magic.
    InvalidMagic,
    /// The container's format version, carried here, is not supported.
    UnsupportedVersion(u8),
    /// The key could not be derived, or the salt is not 16 bytes long.
    KeyDerivationFailed,
    /// The key is not 32 bytes long.
    CipherInitFailed,
    /// A chunk did not authenticate, or the chunks hold fewer bytes than the
    /// header declares. A wrong password, a corrupted or cut container and a
    /// chunk at the wrong position are deliberately not told apart.
    DecryptionFailed,
    /// The operating system's random source failed.
    RandomSourceFailed,
}

impl CryptoError {
    /// The failure of a stream operation that a header failure turns into.
    pub open spec fn of_header(e: HeaderError) -> CryptoError {
        match e {
            HeaderError::InvalidLength => CryptoError::InvalidLength,
            HeaderError::InvalidMagic => CryptoError::InvalidMagic,
            HeaderError::UnsupportedVersion(v) => CryptoError::UnsupportedVersion(v),
        }
    }

    /// Carries a header failure over, keeping its kind and payload.
    pub fn from_header(e: HeaderError) -> (r: CryptoError)
        ensures
            r == CryptoError::of_header(e),
    {
        match e {
            HeaderError::InvalidLength => CryptoError::InvalidLength,
            HeaderError::InvalidMagic => CryptoError::InvalidMagic,
            HeaderError::UnsupportedVersion(v) => CryptoError::UnsupportedVersion(v),
        }
    }

    /// A short fixed description, the same for every value of a variant.
    pub fn message(&self) -> (s: &'static str)
        ensures
            s@ == (match *self {
                CryptoError::TooSmall => "File too small"@,
                CryptoError::InvalidLength => "Invalid length"@,
                CryptoError::InvalidMagic => "Invalid header"@,
                CryptoError::UnsupportedVersion(_) => "Invalid header"@,
                CryptoError::KeyDerivationFailed => "Key derivation failed"@,
                CryptoError::CipherInitFailed => "Cipher init failed"@,
                CryptoError::DecryptionFailed => "Decryption failed"@,
                CryptoError::RandomSourceFailed => "Random source failed"@,
            }),
    {
        match self {
            CryptoError::TooSmall => "File too small",
            CryptoError::InvalidLength => "Invalid length",
            CryptoError::InvalidMagic => "Invalid header",
            CryptoError::UnsupportedVersion(_) => "Invalid header",
            CryptoError::KeyDerivationFailed => "Key derivation failed",
            CryptoError::CipherInitFailed => "Cipher init failed",
            CryptoError::DecryptionFailed => "Decryption failed",
            CryptoError::RandomSourceFailed => "Random source failed",
        }
    }
}

} // verus!
