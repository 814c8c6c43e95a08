//! Sealing one chunk.

use vstd::prelude::*;
use vstd::pervasive::unreached;
use crate::crypto::nonce::{chunk_nonce, derive_nonce};
use crate::crypto::primitives::{aes256gcm_encrypt, aes256gcm_open, aes256gcm_seal, wipe_array, MAX_SEAL_LEN};

verus! {

/// The sealed form of the chunk `chunk` at position `index`.
pub open spec fn sealed_chunk(key: Seq<u8>, base_nonce: Seq<u8>, index: u32, chunk: Seq<u8>) -> Seq<
    u8,
> {
    aes256gcm_seal(key, chunk_nonce(base_nonce, index), chunk)
}

/// What opening sealed bytes as the chunk at position `index` gives.
pub open spec fn opened_chunk(key: Seq<u8>, base_nonce: Seq<u8>, index: u32, sealed: Seq<u8>) -> Option<
    Seq<u8>,
> {
    aes256gcm_open(key, chunk_nonce(base_nonce, index), sealed)
}

/// Seals `chunk` as the chunk at position `chunk_index`: ciphertext, then a
/// 16-byte tag. The chunk may not be longer than the cipher takes in one call.
pub fn encrypt_chunk(key: &[u8; 32], base_nonce: &[u8; 12], chunk_index: u32, chunk: &[u8]) -> (out:
    Vec<u8>)
    requires
        chunk@.len() <= MAX_SEAL_LEN,
    ensures
        out@ == sealed_chunk(key@, base_nonce@, chunk_index, chunk@),
        out@.len() == chunk@.len() + 16,
        opened_chunk(key@, base_nonce@, chunk_index, out@) == Some(chunk@),
{
    let mut nonce = derive_nonce(base_nonce, chunk_index);
    let sealed = aes256gcm_encrypt(key, &nonce, chunk);
    wipe_array(&mut nonce);
    match sealed {
        Ok(v) => v,
        Err(_) => unreached(),
    }
}

} // verus!
