//! The stream decryptor.

use vstd::prelude::*;
use vstd::slice::{slice_subrange, slice_to_vec};
use vstd::string::StringSliceAdditionalSpecFns;
use crate::bytes::append_bytes;
use crate::crypto::decrypt_chunk::decrypt_chunk;
use crate::crypto::error::CryptoError;
use crate::crypto::kdf::derive_key;
use crate::crypto::primitives::{wipe_array, TAG_SIZE};
use crate::crypto::stream::{opened_body, opened_container, opened_stream, piece_len, prepend};
use crate::format::header::{FileHeader, HEADER_SIZE};

verus! {

/// Reads the chunks in `body` under a key and a header: opens each at its
/// position, in order, joins the plaintexts and holds the result against the
/// size the header declares. The first chunk that fails ends the reading, and
/// a plaintext shorter than declared is refused like a failed chunk; one that
/// is longer is cut down to the declared size.
pub fn decrypt_body(key: &[u8; 32], header: &FileHeader, body: &[u8]) -> (r: Result<
    Vec<u8>,
    CryptoError,
>)
    ensures
        match r {
            Ok(v) => opened_body(key@, header@, body@) == Ok::<Seq<u8>, CryptoError>(v@),
            Err(e) => opened_body(key@, header@, body@) == Err::<Seq<u8>, CryptoError>(e),
        },
{
    let exp: u8 = header.chunk_exp;
    let len: usize = body.len();
    let mut output: Vec<u8> = Vec::new();
    let mut off: usize = 0;
    let mut index: u32 = 0;
    let ghost base = header.base_nonce@;
    proof {
        assert(body@.skip(0) =~= body@);
        assert(forall|t: Seq<u8>| Seq::<u8>::empty() + t =~= t);
    }
    while off < len
        invariant
            len == body@.len(),
            off <= len,
            exp == header.chunk_exp,
            base == header.base_nonce@,
            opened_stream(key@, base, exp, body@, 0) == prepend(
                output@,
                opened_stream(key@, base, exp, body@.skip(off as int), index as nat),
            ),
        decreases len - off,
    {
        if index == u32::MAX {
            return Err(CryptoError::DecryptionFailed);
        }
        let n: usize = piece_len(len - off, exp, TAG_SIZE);
        let piece = slice_subrange(body, off, off + n);
        proof {
            let rem = body@.skip(off as int);
            assert(rem.take(n as int) =~= piece@);
            assert(rem.skip(n as int) =~= body@.skip(off + n));
        }
        match decrypt_chunk(key, &header.base_nonce, index, piece) {
            Err(e) => {
                return Err(e);
            },
            Ok(plain) => {
                let ghost before = output@;
                append_bytes(&mut output, plain.as_slice());
                proof {
                    let next = opened_stream(
                        key@,
                        base,
                        exp,
                        body@.skip(off + n),
                        (index + 1) as nat,
                    );
                    if let Some(t) = next {
                        assert(before + (plain@ + t) =~= (before + plain@) + t);
                    }
                }
            },
        }
        off += n;
        index += 1;
    }
    proof {
        assert(body@.skip(len as int) =~= Seq::<u8>::empty());
        assert(output@ + Seq::<u8>::empty() =~= output@);
    }
    if (output.len() as u64) < header.original_size {
        Err(CryptoError::DecryptionFailed)
    } else if output.len() as u64 > header.original_size {
        let keep: usize = header.original_size as usize;
        let cut = slice_to_vec(slice_subrange(output.as_slice(), 0, keep));
        Ok(cut)
    } else {
        assert(output@.take(output@.len() as int) =~= output@);
        Ok(output)
    }
}

/// Decrypts a whole container with `password`.
///
/// Fails with `TooSmall` on input shorter than a header, with the header's
/// own failure where it does not decode, with `KeyDerivationFailed` where
/// the key cannot be derived, and with `DecryptionFailed` as soon as a chunk
/// does not authenticate or where the chunks hold fewer bytes than the
/// header declares. No plaintext is handed out on failure. The key and the
/// header's salt and nonce are wiped before the call returns.
pub fn decrypt_file_bytes(password: &str, encrypted: &[u8]) -> (r: Result<Vec<u8>, CryptoError>)
    ensures
        match r {
            Ok(v) => opened_container(password.spec_bytes(), encrypted@) == Ok::<
                Seq<u8>,
                CryptoError,
            >(v@),
            Err(e) => opened_container(password.spec_bytes(), encrypted@) == Err::<
                Seq<u8>,
                CryptoError,
            >(e),
        },
{
    if encrypted.len() < HEADER_SIZE {
        return Err(CryptoError::TooSmall);
    }
    let mut header = match FileHeader::decode(slice_subrange(encrypted, 0, HEADER_SIZE)) {
        Ok(h) => h,
        Err(e) => {
            return Err(CryptoError::from_header(e));
        },
    };
    let mut key: [u8; 32] = match derive_key(password, header.salt.as_slice()) {
        Ok(k) => k,
        Err(e) => {
            wipe_array(&mut header.salt);
            wipe_array(&mut header.base_nonce);
            return Err(e);
        },
    };
    let body = slice_subrange(encrypted, HEADER_SIZE, encrypted.len());
    let r = decrypt_body(&key, &header, body);
    wipe_array(&mut key);
    wipe_array(&mut header.salt);
    wipe_array(&mut header.base_nonce);
    r
}

} // verus!
