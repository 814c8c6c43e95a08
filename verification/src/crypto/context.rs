//! What one encryption holds while it runs: the key, the base nonce and the
//! header.

use vstd::prelude::*;
use vstd::string::StringSliceAdditionalSpecFns;
use crate::crypto::error::CryptoError;
use crate::crypto::kdf::{derive_key, derived_key, hashable};
use crate::crypto::primitives::{os_random, wipe_array};
use crate::format::header::{FileHeader, CIPHER_AES_256_GCM, KDF_ARGON2ID, VERSION};

verus! {

/// The secret and public values of one encryption. It belongs to that
/// encryption alone; call [`EncryptionContext::clear`] when it is over.
pub struct EncryptionContext {
    pub key: [u8; 32],
    pub base_nonce: [u8; 12],
    pub header: FileHeader,
}

impl EncryptionContext {
    /// The header names this version of the format and the two algorithms,
    /// and carries the base nonce the chunks are sealed under.
    pub open spec fn wf(&self) -> bool {
        &&& self.header.version == VERSION
        &&& self.header.kdf == KDF_ARGON2ID
        &&& self.header.cipher == CIPHER_AES_256_GCM
        &&& self.header.base_nonce@ == self.base_nonce@
    }

    /// Puts a context together from a key and the values drawn for it.
    pub fn assemble(
        key: [u8; 32],
        salt: [u8; 16],
        base_nonce: [u8; 12],
        file_size: u64,
        chunk_exp: u8,
    ) -> (ctx: EncryptionContext)
        ensures
            ctx.wf(),
            ctx.key == key,
            ctx.base_nonce == base_nonce,
            ctx.header.salt == salt,
            ctx.header.chunk_exp == chunk_exp,
            ctx.header.original_size == file_size,
    {
        let header = FileHeader {
            version: VERSION,
            kdf: KDF_ARGON2ID,
            cipher: CIPHER_AES_256_GCM,
            chunk_exp,
            salt,
            base_nonce,
            original_size: file_size,
        };
        EncryptionContext { key, base_nonce, header }
    }

    /// Overwrites the key, the base nonce and the header's copies of salt and
    /// nonce with zeros.
    pub fn clear(&mut self)
        ensures
            forall|i: int| 0 <= i < 32 ==> final(self).key@[i] == 0u8,
            forall|i: int| 0 <= i < 12 ==> final(self).base_nonce@[i] == 0u8,
            forall|i: int| 0 <= i < 12 ==> final(self).header.base_nonce@[i] == 0u8,
            forall|i: int| 0 <= i < 16 ==> final(self).header.salt@[i] == 0u8,
            final(self).header.version == old(self).header.version,
            final(self).header.kdf == old(self).header.kdf,
            final(self).header.cipher == old(self).header.cipher,
            final(self).header.chunk_exp == old(self).header.chunk_exp,
            final(self).header.original_size == old(self).header.original_size,
    {
        wipe_array(&mut self.key);
        wipe_array(&mut self.base_nonce);
        wipe_array(&mut self.header.base_nonce);
        wipe_array(&mut self.header.salt);
    }
}

/// The context of an encryption under `password`, a given salt and a given
/// base nonce.
pub fn init_encryption_with(
    password: &str,
    salt: [u8; 16],
    base_nonce: [u8; 12],
    file_size: u64,
    chunk_exp: u8,
) -> (r: Result<EncryptionContext, CryptoError>)
    ensures
        r.is_ok() <==> hashable(password.spec_bytes()),
        match r {
            Ok(ctx) => {
                &&& derived_key(password.spec_bytes(), salt@) == Ok::<Seq<u8>, CryptoError>(
                    ctx.key@,
                )
                &&& ctx.wf()
                &&& ctx.base_nonce == base_nonce
                &&& ctx.header.salt == salt
                &&& ctx.header.chunk_exp == chunk_exp
                &&& ctx.header.original_size == file_size
            },
            Err(e) => derived_key(password.spec_bytes(), salt@) == Err::<Seq<u8>, CryptoError>(e),
        },
{
    match derive_key(password, salt.as_slice()) {
        Ok(key) => Ok(EncryptionContext::assemble(key, salt, base_nonce, file_size, chunk_exp)),
        Err(e) => Err(e),
    }
}

/// Starts an encryption: draws a fresh salt and a fresh base nonce from the
/// operating system, derives the key and fills in the header.
///
/// Salt and nonce differ from call to call, so the contract says what holds
/// of every context that comes back. The call fails only where the random
/// source fails or the password is too long for the hash.
pub fn init_encryption(password: &str, file_size: u64, chunk_exp: u8) -> (r: Result<
    EncryptionContext,
    CryptoError,
>)
    ensures
        match r {
            Ok(ctx) => {
                &&& derived_key(password.spec_bytes(), ctx.header.salt@) == Ok::<
                    Seq<u8>,
                    CryptoError,
                >(ctx.key@)
                &&& ctx.wf()
                &&& ctx.header.chunk_exp == chunk_exp
                &&& ctx.header.original_size == file_size
            },
            Err(e) => e == CryptoError::RandomSourceFailed || (e
                == CryptoError::KeyDerivationFailed && !hashable(password.spec_bytes())),
        },
{
    let salt: [u8; 16] = match os_random::<16>() {
        Ok(s) => s,
        Err(_) => {
            return Err(CryptoError::RandomSourceFailed);
        },
    };
    let base_nonce: [u8; 12] = match os_random::<12>() {
        Ok(n) => n,
        Err(_) => {
            return Err(CryptoError::RandomSourceFailed);
        },
    };
    init_encryption_with(password, salt, base_nonce, file_size, chunk_exp)
}

} // verus!
