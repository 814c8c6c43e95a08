//! Turning a password into a key.

use vstd::prelude::*;
use vstd::string::StringSliceAdditionalSpecFns;
use crate::crypto::error::CryptoError;
use crate::crypto::primitives::{argon2id_hash, argon2id_key, MAX_HASH_INPUT_LEN};

verus! {

/// Length in bytes of a salt.
pub const SALT_SIZE: usize = 16;

/// The password is short enough for the hash to take it.
pub open spec fn hashable(password: Seq<u8>) -> bool {
    password.len() <= MAX_HASH_INPUT_LEN
}

/// The key that belongs to a password and a salt. A salt of any length but
/// 16 is refused before the hash is asked.
pub open spec fn derived_key(password: Seq<u8>, salt: Seq<u8>) -> Result<Seq<u8>, CryptoError> {
    if salt.len() != 16 {
        Err(CryptoError::KeyDerivationFailed)
    } else {
        match argon2id_key(password, salt) {
            Some(k) => Ok(k),
            None => Err(CryptoError::KeyDerivationFailed),
        }
    }
}

/// Derives the 32-byte key of `password` under `salt` with Argon2id. With a
/// salt of 16 bytes it fails only on a password too long for the hash.
pub fn derive_key(password: &str, salt: &[u8]) -> (r: Result<[u8; 32], CryptoError>)
    ensures
        r.is_ok() <==> salt@.len() == 16 && hashable(password.spec_bytes()),
        match r {
            Ok(k) => derived_key(password.spec_bytes(), salt@) == Ok::<Seq<u8>, CryptoError>(k@),
            Err(e) => derived_key(password.spec_bytes(), salt@) == Err::<Seq<u8>, CryptoError>(e),
        },
{
    if salt.len() != SALT_SIZE {
        return Err(CryptoError::KeyDerivationFailed);
    }
    match argon2id_hash(password.as_bytes(), salt) {
        Ok(k) => Ok(k),
        Err(_) => Err(CryptoError::KeyDerivationFailed),
    }
}

/// Key derivation is a function: equal passwords and salts have equal keys,
/// and fail alike.
pub proof fn lemma_derived_key_deterministic(
    password_a: Seq<u8>,
    salt_a: Seq<u8>,
    password_b: Seq<u8>,
    salt_b: Seq<u8>,
)
    requires
        password_a == password_b,
        salt_a == salt_b,
    ensures
        derived_key(password_a, salt_a) == derived_key(password_b, salt_b),
{
}

} // verus!
