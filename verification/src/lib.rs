//! Password-based, chunked authenticated encryption of byte streams.
//!
//! A container is a fixed 44-byte header followed by a sequence of
//! AES-256-GCM sealed chunks. The key is derived from a password with
//! Argon2id, and every chunk is sealed under its own nonce, derived from the
//! container's base nonce and the chunk's position.
//!
//! The modules hold the protocol. The items of this file are the same
//! operations on plain byte vectors, one call per step, for a caller that
//! streams a large file chunk by chunk.

use vstd::prelude::*;
use vstd::slice::slice_to_vec;
use vstd::string::StringSliceAdditionalSpecFns;
use crate::bytes::array_from_range;
use crate::crypto::context::init_encryption;
use crate::crypto::decrypt_chunk::{chunk_outcome, decrypt_chunk};
use crate::crypto::encrypt_chunk::{encrypt_chunk, opened_chunk, sealed_chunk};
use crate::crypto::error::CryptoError;
use crate::crypto::kdf::{derive_key, derived_key, hashable};
use crate::crypto::primitives::{wipe_array, wipe_u64, wipe_u8, wipe_vec, MAX_SEAL_LEN};
use crate::format::header::{lemma_decode_inverts_encode, parsed, FileHeader, HeaderError, HeaderView, CIPHER_AES_256_GCM, KDF_ARGON2ID};

pub mod bytes;
pub mod crypto;
pub mod format;

verus! {

/// What a caller needs to encrypt chunk by chunk: the encoded header to
/// write first, the key and the base nonce.
pub struct EncryptInitResult {
    header: Vec<u8>,
    key: Vec<u8>,
    base_nonce: Vec<u8>,
}

impl EncryptInitResult {
    /// The encoded header.
    pub closed spec fn header_bytes(&self) -> Seq<u8> {
        self.header@
    }

    /// The key.
    pub closed spec fn key_bytes(&self) -> Seq<u8> {
        self.key@
    }

    /// The base nonce.
    pub closed spec fn base_nonce_bytes(&self) -> Seq<u8> {
        self.base_nonce@
    }

    /// A copy of the encoded header.
    pub fn header(&self) -> (out: Vec<u8>)
        ensures
            out@ == self.header_bytes(),
    {
        slice_to_vec(self.header.as_slice())
    }

    /// A copy of the key.
    pub fn key(&self) -> (out: Vec<u8>)
        ensures
            out@ == self.key_bytes(),
    {
        slice_to_vec(self.key.as_slice())
    }

    /// A copy of the base nonce.
    pub fn base_nonce(&self) -> (out: Vec<u8>)
        ensures
            out@ == self.base_nonce_bytes(),
    {
        slice_to_vec(self.base_nonce.as_slice())
    }

    /// Overwrites the three buffers with zeros and empties them.
    pub fn clear(&mut self)
        ensures
            final(self).header_bytes().len() == 0,
            final(self).key_bytes().len() == 0,
            final(self).base_nonce_bytes().len() == 0,
    {
        wipe_vec(&mut self.header);
        wipe_vec(&mut self.key);
        wipe_vec(&mut self.base_nonce);
    }
}

/// The fields of a decoded header that a caller needs to decrypt chunk by
/// chunk.
pub struct DecodedHeader {
    chunk_exp: u8,
    salt: Vec<u8>,
    base_nonce: Vec<u8>,
    original_size: u64,
}

impl DecodedHeader {
    /// The chunk exponent.
    pub closed spec fn chunk_exp_value(&self) -> u8 {
        self.chunk_exp
    }

    /// The salt.
    pub closed spec fn salt_bytes(&self) -> Seq<u8> {
        self.salt@
    }

    /// The base nonce.
    pub closed spec fn base_nonce_bytes(&self) -> Seq<u8> {
        self.base_nonce@
    }

    /// The declared plaintext length.
    pub closed spec fn original_size_value(&self) -> u64 {
        self.original_size
    }

    /// These are the four fields of `header`.
    pub open spec fn holds(&self, header: HeaderView) -> bool {
        &&& self.chunk_exp_value() == header.chunk_exp
        &&& self.salt_bytes() == header.salt
        &&& self.base_nonce_bytes() == header.base_nonce
        &&& self.original_size_value() == header.original_size
    }

    /// The chunk exponent.
    pub fn chunk_exp(&self) -> (out: u8)
        ensures
            out == self.chunk_exp_value(),
    {
        self.chunk_exp
    }

    /// A copy of the salt.
    pub fn salt(&self) -> (out: Vec<u8>)
        ensures
            out@ == self.salt_bytes(),
    {
        slice_to_vec(self.salt.as_slice())
    }

    /// A copy of the base nonce.
    pub fn base_nonce(&self) -> (out: Vec<u8>)
        ensures
            out@ == self.base_nonce_bytes(),
    {
        slice_to_vec(self.base_nonce.as_slice())
    }

    /// The declared plaintext length.
    pub fn original_size(&self) -> (out: u64)
        ensures
            out == self.original_size_value(),
    {
        self.original_size
    }

    /// Overwrites every field with zeros and empties the two buffers.
    pub fn clear(&mut self)
        ensures
            final(self).chunk_exp_value() == 0,
            final(self).original_size_value() == 0,
            final(self).salt_bytes().len() == 0,
            final(self).base_nonce_bytes().len() == 0,
    {
        wipe_u8(&mut self.chunk_exp);
        wipe_vec(&mut self.salt);
        wipe_vec(&mut self.base_nonce);
        wipe_u64(&mut self.original_size);
    }
}

/// Starts an encryption and hands out its header, key and base nonce as
/// byte vectors. The context itself is wiped before the call returns.
pub fn init_encrypt(password: &str, file_size: u64, chunk_exp: u8) -> (r: Result<
    EncryptInitResult,
    CryptoError,
>)
    ensures
        match r {
            Ok(res) => {
                &&& res.header_bytes().len() == 44
                &&& parsed(res.header_bytes()) matches Ok(h)
                &&& res.header_bytes() == h.encoded()
                &&& h.kdf == KDF_ARGON2ID
                &&& h.cipher == CIPHER_AES_256_GCM
                &&& h.chunk_exp == chunk_exp
                &&& h.original_size == file_size
                &&& res.base_nonce_bytes() == h.base_nonce
                &&& res.base_nonce_bytes().len() == 12
                &&& res.key_bytes().len() == 32
                &&& derived_key(password.spec_bytes(), h.salt) == Ok::<Seq<u8>, CryptoError>(
                    res.key_bytes(),
                )
            },
            Err(e) => e == CryptoError::RandomSourceFailed || (e
                == CryptoError::KeyDerivationFailed && !hashable(password.spec_bytes())),
        },
{
    let mut ctx = match init_encryption(password, file_size, chunk_exp) {
        Ok(ctx) => ctx,
        Err(e) => {
            return Err(e);
        },
    };
    let res = EncryptInitResult {
        header: ctx.header.encode(),
        key: slice_to_vec(ctx.key.as_slice()),
        base_nonce: slice_to_vec(ctx.base_nonce.as_slice()),
    };
    proof {
        lemma_decode_inverts_encode(ctx.header@);
    }
    ctx.clear();
    Ok(res)
}

/// Seals one chunk, with key and base nonce given as byte vectors of 32 and
/// 12 bytes.
pub fn encrypt_chunk_wasm(key: Vec<u8>, base_nonce: Vec<u8>, chunk_index: u32, chunk: Vec<u8>) -> (out:
    Vec<u8>)
    requires
        key@.len() == 32,
        base_nonce@.len() == 12,
        chunk@.len() <= MAX_SEAL_LEN,
    ensures
        out@ == sealed_chunk(key@, base_nonce@, chunk_index, chunk@),
        out@.len() == chunk@.len() + 16,
        opened_chunk(key@, base_nonce@, chunk_index, out@) == Some(chunk@),
{
    let mut key_array: [u8; 32] = array_from_range::<32>(key.as_slice(), 0);
    let mut nonce_array: [u8; 12] = array_from_range::<12>(base_nonce.as_slice(), 0);
    assert(key_array@ =~= key@);
    assert(nonce_array@ =~= base_nonce@);
    let out = encrypt_chunk(&key_array, &nonce_array, chunk_index, chunk.as_slice());
    wipe_array(&mut key_array);
    wipe_array(&mut nonce_array);
    out
}

/// Decodes a header and hands out the fields needed to decrypt. The decoded
/// header's own salt and nonce are wiped before the call returns.
pub fn decode_header_wasm(header_bytes: Vec<u8>) -> (r: Result<DecodedHeader, HeaderError>)
    ensures
        match r {
            Ok(d) => parsed(header_bytes@) matches Ok(h) && d.holds(h) && d.salt_bytes().len()
                == 16 && d.base_nonce_bytes().len() == 12,
            Err(e) => parsed(header_bytes@) == Err::<HeaderView, HeaderError>(e),
        },
{
    match FileHeader::decode(header_bytes.as_slice()) {
        Ok(h) => {
            let mut h = h;
            let decoded = DecodedHeader {
                chunk_exp: h.chunk_exp,
                salt: slice_to_vec(h.salt.as_slice()),
                base_nonce: slice_to_vec(h.base_nonce.as_slice()),
                original_size: h.original_size,
            };
            wipe_array(&mut h.salt);
            wipe_array(&mut h.base_nonce);
            Ok(decoded)
        },
        Err(e) => Err(e),
    }
}

/// Derives the 32-byte key of `password` under `salt` and hands it out as a
/// byte vector. The working copy is wiped before the call returns.
pub fn derive_key_wasm(password: &str, salt: Vec<u8>) -> (r: Result<Vec<u8>, CryptoError>)
    ensures
        r.is_ok() <==> salt@.len() == 16 && hashable(password.spec_bytes()),
        r matches Ok(k) ==> k@.len() == 32,
        match r {
            Ok(k) => derived_key(password.spec_bytes(), salt@) == Ok::<Seq<u8>, CryptoError>(k@),
            Err(e) => derived_key(password.spec_bytes(), salt@) == Err::<Seq<u8>, CryptoError>(e),
        },
{
    match derive_key(password, salt.as_slice()) {
        Ok(k) => {
            let mut key: [u8; 32] = k;
            let result = slice_to_vec(key.as_slice());
            wipe_array(&mut key);
            Ok(result)
        },
        Err(e) => Err(e),
    }
}

/// What opening a chunk gives when key and base nonce come as byte vectors:
/// a key that is not 32 bytes long and a nonce that is not 12 bytes long are
/// refused, in this order, before the cipher is asked.
pub open spec fn checked_chunk_outcome(
    key: Seq<u8>,
    base_nonce: Seq<u8>,
    index: u32,
    sealed: Seq<u8>,
) -> Result<Seq<u8>, CryptoError> {
    if key.len() != 32 {
        Err(CryptoError::CipherInitFailed)
    } else if base_nonce.len() != 12 {
        Err(CryptoError::InvalidLength)
    } else {
        chunk_outcome(opened_chunk(key, base_nonce, index, sealed))
    }
}

/// Opens one chunk, with key and base nonce given as byte vectors.
pub fn decrypt_chunk_wasm(
    key: Vec<u8>,
    base_nonce: Vec<u8>,
    chunk_index: u32,
    encrypted_chunk: Vec<u8>,
) -> (r: Result<Vec<u8>, CryptoError>)
    ensures
        match r {
            Ok(v) => checked_chunk_outcome(key@, base_nonce@, chunk_index, encrypted_chunk@)
                == Ok::<Seq<u8>, CryptoError>(v@),
            Err(e) => checked_chunk_outcome(key@, base_nonce@, chunk_index, encrypted_chunk@)
                == Err::<Seq<u8>, CryptoError>(e),
        },
{
    if key.len() != 32 {
        return Err(CryptoError::CipherInitFailed);
    }
    if base_nonce.len() != 12 {
        return Err(CryptoError::InvalidLength);
    }
    let mut key_array: [u8; 32] = array_from_range::<32>(key.as_slice(), 0);
    let mut nonce_array: [u8; 12] = array_from_range::<12>(base_nonce.as_slice(), 0);
    assert(key_array@ =~= key@);
    assert(nonce_array@ =~= base_nonce@);
    let r = decrypt_chunk(&key_array, &nonce_array, chunk_index, encrypted_chunk.as_slice());
    wipe_array(&mut key_array);
    wipe_array(&mut nonce_array);
    r
}

} // verus!
