//! The cryptographic building blocks, taken from their crates as they are.
//!
//! Nothing in this file is proved. Each function states what the crate's
//! source shows of the call it makes; the rest of the library is verified
//! against these statements.

use vstd::prelude::*;
use aes_gcm::aead::{Aead, KeyInit};
use aes_gcm::{Aes256Gcm, Key, Nonce};
use argon2::Argon2;
use rand::rngs::OsRng;
use rand::RngCore;
use zeroize::Zeroize;

verus! {

/// The error of `argon2`, carried through unread.
#[verifier::external_type_specification]
#[verifier::external_body]
pub struct ExArgon2Error(argon2::Error);

/// The error of `aes_gcm`, which by design says nothing of its cause.
#[verifier::external_type_specification]
#[verifier::external_body]
pub struct ExAeadError(aes_gcm::Error);

/// The error of `rand`, carried through unread.
#[verifier::external_type_specification]
#[verifier::external_body]
pub struct ExRandError(rand::Error);

/// Length in bytes of the tag that ends every sealed chunk.
pub const TAG_SIZE: u8 = 16;

/// The longest plaintext, in bytes, that AES-GCM seals in one call.
pub const MAX_SEAL_LEN: u64 = 0x10_0000_0000;

/// The longest password and the longest salt, in bytes, that Argon2 hashes.
pub const MAX_HASH_INPUT_LEN: u64 = 0xFFFF_FFFF;

/// The shortest salt, in bytes, that Argon2 hashes.
pub const MIN_SALT_LEN: u64 = 8;

/// The lengths of password and salt are within what Argon2 hashes.
pub open spec fn argon2_takes(password: Seq<u8>, salt: Seq<u8>) -> bool {
    &&& password.len() <= MAX_HASH_INPUT_LEN
    &&& MIN_SALT_LEN <= salt.len()
    &&& salt.len() <= MAX_HASH_INPUT_LEN
}

/// The 32 bytes that Argon2id, at the crate's default cost parameters, makes
/// of a password and a salt, or `None` where it refuses the pair.
pub uninterp spec fn argon2id_key(password: Seq<u8>, salt: Seq<u8>) -> Option<Seq<u8>>;

/// Ciphertext followed by tag: what AES-256-GCM, without associated data,
/// makes of a plaintext under a key and a 12-byte nonce.
pub uninterp spec fn aes256gcm_seal(key: Seq<u8>, nonce: Seq<u8>, plaintext: Seq<u8>) -> Seq<u8>;

/// The plaintext that AES-256-GCM, without associated data, recovers from
/// sealed bytes under a key and a 12-byte nonce, or `None` where the bytes do
/// not authenticate.
pub uninterp spec fn aes256gcm_open(key: Seq<u8>, nonce: Seq<u8>, sealed: Seq<u8>) -> Option<
    Seq<u8>,
>;

/// `Argon2::hash_password_into` on `Argon2::default()` with a 32-byte output.
///
/// Trusted: the outcome is a function of password and salt alone, named
/// [`argon2id_key`]; and the call succeeds exactly where [`argon2_takes`]
/// holds: the password is at most [`MAX_HASH_INPUT_LEN`] bytes long and the
/// salt between [`MIN_SALT_LEN`] and [`MAX_HASH_INPUT_LEN`] bytes, the only
/// tests the crate makes of its inputs.
#[verifier::external_body]
pub(crate) fn argon2id_hash(password: &[u8], salt: &[u8]) -> (r: Result<[u8; 32], argon2::Error>)
    ensures
        r.is_ok() == argon2_takes(password@, salt@),
        match r {
            Ok(k) => argon2id_key(password@, salt@) == Some(k@),
            Err(_) => argon2id_key(password@, salt@).is_none(),
        },
{
    let mut key = [0u8; 32];
    match Argon2::default().hash_password_into(password, salt, &mut key) {
        Ok(()) => Ok(key),
        Err(e) => Err(e),
    }
}

/// `Aead::encrypt` on an `Aes256Gcm` made from `key`.
///
/// Trusted: the call succeeds exactly on plaintexts of at most
/// [`MAX_SEAL_LEN`] bytes; its output is a function of the three arguments,
/// named [`aes256gcm_seal`], and is 16 bytes longer than the plaintext; and
/// opening that output under the same key and nonce gives the plaintext back.
#[verifier::external_body]
pub(crate) fn aes256gcm_encrypt(key: &[u8; 32], nonce: &[u8; 12], plaintext: &[u8]) -> (r: Result<
    Vec<u8>,
    aes_gcm::Error,
>)
    ensures
        r.is_ok() <==> plaintext@.len() <= MAX_SEAL_LEN,
        r matches Ok(v) ==> v@ == aes256gcm_seal(key@, nonce@, plaintext@),
        r matches Ok(v) ==> v@.len() == plaintext@.len() + 16,
        r matches Ok(v) ==> aes256gcm_open(key@, nonce@, v@) == Some(plaintext@),
{
    let cipher = Aes256Gcm::new(Key::<Aes256Gcm>::from_slice(key));
    cipher.encrypt(Nonce::from_slice(nonce), plaintext)
}

/// `Aead::decrypt` on an `Aes256Gcm` made from `key`.
///
/// Trusted: the outcome is a function of the three arguments, named
/// [`aes256gcm_open`]; input shorter than a tag is refused; and a recovered
/// plaintext is 16 bytes shorter than the input.
#[verifier::external_body]
pub(crate) fn aes256gcm_decrypt(key: &[u8; 32], nonce: &[u8; 12], sealed: &[u8]) -> (r: Result<
    Vec<u8>,
    aes_gcm::Error,
>)
    ensures
        match r {
            Ok(v) => aes256gcm_open(key@, nonce@, sealed@) == Some(v@),
            Err(_) => aes256gcm_open(key@, nonce@, sealed@).is_none(),
        },
        r matches Ok(v) ==> sealed@.len() == v@.len() + 16,
{
    let cipher = Aes256Gcm::new(Key::<Aes256Gcm>::from_slice(key));
    cipher.decrypt(Nonce::from_slice(nonce), sealed)
}

/// `RngCore::try_fill_bytes` on `OsRng`, over a fresh array.
///
/// Trusted: nothing but that the call returns. The bytes come from the
/// operating system and are different at every call.
#[verifier::external_body]
pub(crate) fn os_random<const N: usize>() -> (r: Result<[u8; N], rand::Error>) {
    let mut buf = [0u8; N];
    match OsRng.try_fill_bytes(&mut buf) {
        Ok(()) => Ok(buf),
        Err(e) => Err(e),
    }
}

/// `Zeroize::zeroize` on a byte array.
///
/// Trusted: every byte is zero afterwards.
#[verifier::external_body]
pub(crate) fn wipe_array<const N: usize>(buf: &mut [u8; N])
    ensures
        forall|i: int| 0 <= i < N ==> final(buf)@[i] == 0u8,
{
    buf.zeroize();
}

/// `Zeroize::zeroize` on a byte vector.
///
/// Trusted: the vector is empty afterwards.
#[verifier::external_body]
pub(crate) fn wipe_vec(buf: &mut Vec<u8>)
    ensures
        final(buf)@.len() == 0,
{
    buf.zeroize();
}

/// `Zeroize::zeroize` on a byte.
///
/// Trusted: the byte is zero afterwards.
#[verifier::external_body]
pub(crate) fn wipe_u8(value: &mut u8)
    ensures
        *final(value) == 0u8,
{
    value.zeroize();
}

/// `Zeroize::zeroize` on a 64-bit integer.
///
/// Trusted: the integer is zero afterwards.
#[verifier::external_body]
pub(crate) fn wipe_u64(value: &mut u64)
    ensures
        *final(value) == 0u64,
{
    value.zeroize();
}

} // verus!
