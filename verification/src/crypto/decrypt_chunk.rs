//! Opening one chunk.

use vstd::prelude::*;
use crate::crypto::encrypt_chunk::opened_chunk;
use crate::crypto::error::CryptoError;
use crate::crypto::nonce::derive_nonce;
use crate::crypto::primitives::{aes256gcm_decrypt, wipe_array};

verus! {

/// The outcome of opening a chunk, with the one failure there is.
pub open spec fn chunk_outcome(opened: Option<Seq<u8>>) -> Result<Seq<u8>, CryptoError> {
    match opened {
        Some(p) => Ok(p),
        None => Err(CryptoError::DecryptionFailed),
    }
}

/// Authenticates and opens the sealed chunk at position `chunk_index`.
/// Every failure is `DecryptionFailed`, whatever caused it.
pub fn decrypt_chunk(
    key: &[u8; 32],
    base_nonce: &[u8; 12],
    chunk_index: u32,
    encrypted_chunk: &[u8],
) -> (r: Result<Vec<u8>, CryptoError>)
    ensures
        match r {
            Ok(v) => chunk_outcome(opened_chunk(key@, base_nonce@, chunk_index, encrypted_chunk@))
                == Ok::<Seq<u8>, CryptoError>(v@),
            Err(e) => chunk_outcome(opened_chunk(key@, base_nonce@, chunk_index, encrypted_chunk@))
                == Err::<Seq<u8>, CryptoError>(e),
        },
        r matches Ok(v) ==> encrypted_chunk@.len() == v@.len() + 16,
        encrypted_chunk@.len() < 16 ==> r == Err::<Vec<u8>, CryptoError>(
            CryptoError::DecryptionFailed,
        ),
{
    let mut nonce = derive_nonce(base_nonce, chunk_index);
    let opened = aes256gcm_decrypt(key, &nonce, encrypted_chunk);
    wipe_array(&mut nonce);
    match opened {
        Ok(v) => Ok(v),
        Err(_) => Err(CryptoError::DecryptionFailed),
    }
}

} // verus!
