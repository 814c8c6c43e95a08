//! The nonce of a chunk.

use vstd::prelude::*;
use vstd::bytes::{spec_u32_from_le_bytes, spec_u32_to_le_bytes, u32_to_le_bytes};
use vstd::bytes::lemma_auto_spec_u32_to_from_le_bytes;

verus! {

/// The nonce of the chunk at position `index`: the base nonce with its last
/// four bytes replaced by the position, little-endian.
pub open spec fn chunk_nonce(base: Seq<u8>, index: u32) -> Seq<u8> {
    base.subrange(0, 8) + spec_u32_to_le_bytes(index)
}

/// Computes the nonce of the chunk at position `index`.
pub fn derive_nonce(base_nonce: &[u8; 12], index: u32) -> (nonce: [u8; 12])
    ensures
        nonce@ == chunk_nonce(base_nonce@, index),
{
    let le = u32_to_le_bytes(index);
    let mut nonce: [u8; 12] = *base_nonce;
    nonce[8] = le[0];
    nonce[9] = le[1];
    nonce[10] = le[2];
    nonce[11] = le[3];
    assert(nonce@ =~= chunk_nonce(base_nonce@, index));
    nonce
}

/// Two chunks of one container never share a nonce: under one base nonce,
/// different positions give different nonces.
pub proof fn lemma_chunk_nonce_injective(base: Seq<u8>, i: u32, j: u32)
    requires
        base.len() == 12,
        chunk_nonce(base, i) == chunk_nonce(base, j),
    ensures
        i == j,
{
    lemma_auto_spec_u32_to_from_le_bytes();
    let a = chunk_nonce(base, i);
    let b = chunk_nonce(base, j);
    assert(a.subrange(8, 12) =~= spec_u32_to_le_bytes(i));
    assert(b.subrange(8, 12) =~= spec_u32_to_le_bytes(j));
    assert(spec_u32_from_le_bytes(spec_u32_to_le_bytes(i)) == i);
    assert(spec_u32_from_le_bytes(spec_u32_to_le_bytes(j)) == j);
}

/// Deriving a nonce leaves the first eight bytes of the base nonce alone and
/// keeps the length at twelve.
pub proof fn lemma_chunk_nonce_shape(base: Seq<u8>, index: u32)
    requires
        base.len() == 12,
    ensures
        chunk_nonce(base, index).len() == 12,
        chunk_nonce(base, index).subrange(0, 8) == base.subrange(0, 8),
{
    lemma_auto_spec_u32_to_from_le_bytes();
    assert(chunk_nonce(base, index).subrange(0, 8) =~= base.subrange(0, 8));
}

} // verus!
