//! The stream encryptor.

use vstd::prelude::*;
use vstd::arithmetic::power2::{lemma2_to64_rest, lemma_pow2_strictly_increases};
use vstd::slice::slice_subrange;
use vstd::string::StringSliceAdditionalSpecFns;
use crate::bytes::append_bytes;
use crate::crypto::context::{init_encryption, EncryptionContext};
use crate::crypto::encrypt_chunk::{encrypt_chunk, sealed_chunk};
use crate::crypto::error::CryptoError;
use crate::crypto::kdf::{derived_key, hashable};
use crate::crypto::stream::{chunk_count, chunk_size, cipher_inverts, lemma_full_chunks_in_place, lemma_chunk_count_step, lemma_decrypt_inverts_encrypt, lemma_open_inverts_seal};
use crate::crypto::stream::{opened_container, piece_len, sealed_container, sealed_stream, MAX_CHUNKS, MAX_CHUNK_EXP};
use crate::format::header::{lemma_decode_inverts_encode, lemma_encoded_len, parsed, CIPHER_AES_256_GCM, KDF_ARGON2ID};

verus! {

/// `out` is a container of `data` under `password` with chunk exponent
/// `exp`: its header names this format and the two algorithms, declares the
/// length of `data`, and is followed by the chunks of `data` sealed under the
/// key of `password` and the header's salt, each 16 bytes longer than the
/// chunk it holds and opening to it again.
pub open spec fn is_container_of(out: Seq<u8>, password: Seq<u8>, data: Seq<u8>, exp: u8) -> bool {
    &&& out.len() >= 44
    &&& parsed(out.take(44)) matches Ok(header)
    &&& header.kdf == KDF_ARGON2ID
    &&& header.cipher == CIPHER_AES_256_GCM
    &&& header.chunk_exp == exp
    &&& header.original_size == data.len()
    &&& derived_key(password, header.salt) matches Ok(key)
    &&& out == sealed_container(key, header, data)
    &&& cipher_inverts(key, header.base_nonce, exp, data, 0)
}

/// Writes the container of `file_bytes` under a context: the header, then
/// every chunk sealed at its position, in order.
pub fn encrypt_with_context(ctx: &EncryptionContext, file_bytes: &[u8]) -> (out: Vec<u8>)
    requires
        ctx.wf(),
        ctx.header.chunk_exp <= MAX_CHUNK_EXP,
        ctx.header.original_size == file_bytes@.len(),
        chunk_count(file_bytes@.len(), ctx.header.chunk_exp) <= MAX_CHUNKS,
    ensures
        out@ == sealed_container(ctx.key@, ctx.header@, file_bytes@),
        out@.len() == 44 + file_bytes@.len() + 16 * chunk_count(
            file_bytes@.len(),
            ctx.header.chunk_exp,
        ),
        cipher_inverts(
            ctx.key@,
            ctx.header.base_nonce@,
            ctx.header.chunk_exp,
            file_bytes@,
            0,
        ),
        forall|password: Seq<u8>|
            derived_key(password, ctx.header.salt@) == Ok::<Seq<u8>, CryptoError>(ctx.key@)
                ==> #[trigger] opened_container(password, out@) == Ok::<Seq<u8>, CryptoError>(
                file_bytes@,
            ),
{
    let exp: u8 = ctx.header.chunk_exp;
    let len: usize = file_bytes.len();
    let mut out: Vec<u8> = ctx.header.encode();
    let ghost head: Seq<u8> = out@;
    let ghost mut body: Seq<u8> = Seq::<u8>::empty();
    let ghost key = ctx.key@;
    let ghost base = ctx.base_nonce@;
    let ghost data = file_bytes@;
    let mut off: usize = 0;
    let mut index: u32 = 0;
    proof {
        assert(data.skip(0) =~= data);
        assert(out@ =~= head + body);
    }
    while off < len
        invariant
            len == data.len(),
            data == file_bytes@,
            key == ctx.key@,
            base == ctx.base_nonce@,
            exp == ctx.header.chunk_exp,
            exp <= MAX_CHUNK_EXP,
            off <= len,
            head.len() == 44,
            out@ == head + body,
            body.len() == off + 16 * index,
            chunk_count(len as nat, exp) == index + chunk_count((len - off) as nat, exp),
            chunk_count(len as nat, exp) <= MAX_CHUNKS,
            sealed_stream(key, base, exp, data, 0) == body + sealed_stream(
                key,
                base,
                exp,
                data.skip(off as int),
                index as nat,
            ),
            cipher_inverts(key, base, exp, data.skip(off as int), index as nat) ==> cipher_inverts(
                key,
                base,
                exp,
                data,
                0,
            ),
        decreases len - off,
    {
        let n: usize = piece_len(len - off, exp, 0);
        proof {
            lemma_chunk_count_step((len - off) as nat, exp);
            lemma2_to64_rest();
            if exp < 36 {
                lemma_pow2_strictly_increases(exp as nat, 36);
            }
        }
        let chunk = slice_subrange(file_bytes, off, off + n);
        let sealed = encrypt_chunk(&ctx.key, &ctx.base_nonce, index, chunk);
        append_bytes(&mut out, sealed.as_slice());
        proof {
            let rem = data.skip(off as int);
            assert(rem.take(n as int) =~= chunk@);
            assert(rem.skip(n as int) =~= data.skip(off + n));
            let next = sealed_stream(key, base, exp, data.skip(off + n), (index + 1) as nat);
            assert(sealed_stream(key, base, exp, rem, index as nat) == sealed@ + next);
            assert(body + (sealed@ + next) =~= (body + sealed@) + next);
            assert(out@ =~= head + (body + sealed@));
            body = body + sealed@;
        }
        off += n;
        index += 1;
    }
    proof {
        assert(data.skip(len as int) =~= Seq::<u8>::empty());
        assert(body + Seq::<u8>::empty() =~= body);
        assert(ctx.header@.wf());
        lemma_open_inverts_seal(key, base, exp, data, 0);
        assert forall|password: Seq<u8>|
            derived_key(password, ctx.header.salt@) == Ok::<Seq<u8>, CryptoError>(
                ctx.key@,
            ) implies #[trigger] opened_container(password, out@) == Ok::<Seq<u8>, CryptoError>(
            file_bytes@,
        ) by {
            lemma_decrypt_inverts_encrypt(password, key, ctx.header@, data);
        }
    }
    out
}

/// Encrypts `file_bytes` under `password` into a container with chunks of
/// `2^chunk_exp` bytes.
///
/// Salt and base nonce are drawn afresh, so two calls give different
/// containers; every one of them is a container of `file_bytes` under
/// `password`, and decrypts with `password` to `file_bytes`. The call fails
/// only where the random source fails or the password is too long for the
/// hash.
pub fn encrypt_file_bytes(password: &str, file_bytes: &[u8], chunk_exp: u8) -> (r: Result<
    Vec<u8>,
    CryptoError,
>)
    requires
        chunk_exp <= MAX_CHUNK_EXP,
        chunk_count(file_bytes@.len(), chunk_exp) <= MAX_CHUNKS,
    ensures
        match r {
            Ok(out) => {
                &&& is_container_of(out@, password.spec_bytes(), file_bytes@, chunk_exp)
                &&& out@.len() == 44 + file_bytes@.len() + 16 * chunk_count(
                    file_bytes@.len(),
                    chunk_exp,
                )
                &&& opened_container(password.spec_bytes(), out@) == Ok::<Seq<u8>, CryptoError>(
                    file_bytes@,
                )
            },
            Err(e) => e == CryptoError::RandomSourceFailed || (e
                == CryptoError::KeyDerivationFailed && !hashable(password.spec_bytes())),
        },
{
    let mut ctx = match init_encryption(password, file_bytes.len() as u64, chunk_exp) {
        Ok(ctx) => ctx,
        Err(e) => {
            return Err(e);
        },
    };
    let out = encrypt_with_context(&ctx, file_bytes);
    proof {
        let h = ctx.header@;
        lemma_encoded_len(h);
        lemma_decode_inverts_encode(h);
        assert(out@.take(44) =~= h.encoded());
    }
    ctx.clear();
    Ok(out)
}

/// Chunk boundary, in a container: where the plaintext is exactly `q` full
/// chunks, the container is the header and `q` full sealed chunks, and the
/// sealed chunk at place `i` is the `i`-th stretch of `2^exp` plaintext
/// bytes, sealed at position `i` under the container's key and base nonce.
pub proof fn lemma_container_full_chunks_in_place(
    out: Seq<u8>,
    password: Seq<u8>,
    data: Seq<u8>,
    exp: u8,
    q: nat,
    i: nat,
)
    requires
        is_container_of(out, password, data, exp),
        data.len() == q * chunk_size(exp),
        i < q,
    ensures
        out.len() == 44 + q * (chunk_size(exp) + 16),
        parsed(out.take(44)) matches Ok(header) && derived_key(password, header.salt) matches Ok(
            key,
        ) && out.subrange(
            (44 + i * (chunk_size(exp) + 16)) as int,
            (44 + (i + 1) * (chunk_size(exp) + 16)) as int,
        ) == sealed_chunk(
            key,
            header.base_nonce,
            i as u32,
            data.subrange((i * chunk_size(exp)) as int, ((i + 1) * chunk_size(exp)) as int),
        ),
{
    let header = parsed(out.take(44))->Ok_0;
    let key = derived_key(password, header.salt)->Ok_0;
    let d = chunk_size(exp) + 16;
    let s = sealed_stream(key, header.base_nonce, exp, data, 0);
    assert(header.wf());
    lemma_encoded_len(header);
    lemma_full_chunks_in_place(key, header.base_nonce, exp, data, q, i);
    assert(s.len() == q * d);
    assert(0 <= i * d <= (i + 1) * d <= q * d) by (nonlinear_arith)
        requires
            0 <= i,
            i + 1 <= q,
            d >= 0,
    ;
    assert(out =~= header.encoded() + s);
    assert(out.subrange((44 + i * d) as int, (44 + (i + 1) * d) as int) =~= s.subrange(
        (i * d) as int,
        ((i + 1) * d) as int,
    ));
}

} // verus!
