//! The shape of a container: how a plaintext is cut into chunks, what the
//! sealed chunks look like side by side, and what reading them back gives.

use vstd::prelude::*;
use vstd::arithmetic::div_mod::{lemma_basic_div, lemma_div_is_ordered, lemma_div_multiples_vanish_fancy, lemma_div_plus_one};
use vstd::arithmetic::power2::{lemma2_to64, lemma2_to64_rest, lemma_pow2_pos, lemma_pow2_strictly_increases, pow2};
use vstd::bits::lemma_u64_shl_is_mul;
use vstd::math::min;
use crate::crypto::encrypt_chunk::{opened_chunk, sealed_chunk};
use crate::crypto::error::CryptoError;
use crate::crypto::kdf::derived_key;
use crate::format::header::{lemma_decode_inverts_encode, lemma_encoded_len, parsed, HeaderView, VERSION};

verus! {

/// The largest chunk exponent the encryptor takes: a full chunk of this size
/// is the longest plaintext the cipher seals in one call.
pub const MAX_CHUNK_EXP: u8 = 36;

/// The largest number of chunks a container may hold, so that every chunk
/// position, and the one after the last, fits the 32-bit counter of the nonce.
pub const MAX_CHUNKS: u64 = 0xFFFF_FFFF;

/// Plaintext bytes per full chunk.
pub open spec fn chunk_size(exp: u8) -> nat {
    pow2(exp as nat)
}

/// The number of chunks a plaintext of `len` bytes is cut into.
pub open spec fn chunk_count(len: nat, exp: u8) -> nat {
    ((len + chunk_size(exp) - 1) / (chunk_size(exp) as int)) as nat
}

/// The sealed chunks of `data`, side by side, the first at position `index`.
pub open spec fn sealed_stream(
    key: Seq<u8>,
    base_nonce: Seq<u8>,
    exp: u8,
    data: Seq<u8>,
    index: nat,
) -> Seq<u8>
    decreases data.len(),
    via sealed_stream_decreases
{
    if data.len() == 0 {
        Seq::<u8>::empty()
    } else {
        let n = min(data.len() as int, chunk_size(exp) as int);
        sealed_chunk(key, base_nonce, index as u32, data.take(n)) + sealed_stream(
            key,
            base_nonce,
            exp,
            data.skip(n),
            index + 1,
        )
    }
}

#[via_fn]
proof fn sealed_stream_decreases(
    key: Seq<u8>,
    base_nonce: Seq<u8>,
    exp: u8,
    data: Seq<u8>,
    index: nat,
) {
    lemma_pow2_pos(exp as nat);
}

/// `rest` with `done` in front of it, where there is a `rest`.
pub open spec fn prepend(done: Seq<u8>, rest: Option<Seq<u8>>) -> Option<Seq<u8>> {
    match rest {
        Some(r) => Some(done + r),
        None => None,
    }
}

/// The plaintext of a run of sealed chunks whose first stands at position
/// `index`, or `None` where a chunk does not authenticate or stands at a
/// position the counter cannot hold. Each chunk is a full sealed chunk, or
/// all that is left.
pub open spec fn opened_stream(
    key: Seq<u8>,
    base_nonce: Seq<u8>,
    exp: u8,
    data: Seq<u8>,
    index: nat,
) -> Option<Seq<u8>>
    decreases data.len(),
{
    if data.len() == 0 {
        Some(Seq::<u8>::empty())
    } else if index >= MAX_CHUNKS {
        None
    } else {
        let n = min(data.len() as int, chunk_size(exp) as int + 16);
        match opened_chunk(key, base_nonce, index as u32, data.take(n)) {
            None => None,
            Some(p) => prepend(p, opened_stream(key, base_nonce, exp, data.skip(n), index + 1)),
        }
    }
}

/// The container of `data` under `key`: the encoded header, then the sealed
/// chunks from position 0 on.
pub open spec fn sealed_container(key: Seq<u8>, header: HeaderView, data: Seq<u8>) -> Seq<u8> {
    header.encoded() + sealed_stream(key, header.base_nonce, header.chunk_exp, data, 0)
}

/// The joined plaintext held against the size the header declares: where
/// bytes are missing the container was cut short and nothing is handed out;
/// otherwise the result is the first `original_size` bytes.
pub open spec fn sized_plaintext(plain: Seq<u8>, original_size: u64) -> Result<
    Seq<u8>,
    CryptoError,
> {
    if plain.len() < original_size {
        Err(CryptoError::DecryptionFailed)
    } else {
        Ok(plain.take(original_size as int))
    }
}

/// What reading the chunks in `body` gives under a key and a header.
pub open spec fn opened_body(key: Seq<u8>, header: HeaderView, body: Seq<u8>) -> Result<
    Seq<u8>,
    CryptoError,
> {
    match opened_stream(key, header.base_nonce, header.chunk_exp, body, 0) {
        None => Err(CryptoError::DecryptionFailed),
        Some(plain) => sized_plaintext(plain, header.original_size),
    }
}

/// What decrypting `data` with `password` gives: the plaintext, or the first
/// failure in the order size, header, key, chunks.
pub open spec fn opened_container(password: Seq<u8>, data: Seq<u8>) -> Result<Seq<u8>, CryptoError> {
    if data.len() < 44 {
        Err(CryptoError::TooSmall)
    } else {
        match parsed(data.take(44)) {
            Err(e) => Err(CryptoError::of_header(e)),
            Ok(header) => match derived_key(password, header.salt) {
                Err(e) => Err(e),
                Ok(key) => opened_body(key, header, data.skip(44)),
            },
        }
    }
}

/// Every chunk of `data`, sealed at its position, is 16 bytes longer than the
/// chunk and opens to it again.
pub open spec fn cipher_inverts(
    key: Seq<u8>,
    base_nonce: Seq<u8>,
    exp: u8,
    data: Seq<u8>,
    index: nat,
) -> bool
    decreases data.len(),
    via cipher_inverts_decreases
{
    data.len() == 0 || {
        let n = min(data.len() as int, chunk_size(exp) as int);
        let c = sealed_chunk(key, base_nonce, index as u32, data.take(n));
        &&& c.len() == n + 16
        &&& opened_chunk(key, base_nonce, index as u32, c) == Some(data.take(n))
        &&& cipher_inverts(key, base_nonce, exp, data.skip(n), index + 1)
    }
}

#[via_fn]
proof fn cipher_inverts_decreases(
    key: Seq<u8>,
    base_nonce: Seq<u8>,
    exp: u8,
    data: Seq<u8>,
    index: nat,
) {
    lemma_pow2_pos(exp as nat);
}

/// The length of the next piece to take from `remaining` bytes: a full piece
/// of `2^exp + overhead` bytes, or all that is left.
pub fn piece_len(remaining: usize, exp: u8, overhead: u8) -> (n: usize)
    ensures
        n == min(remaining as int, chunk_size(exp) + overhead),
{
    if exp >= 64 {
        proof {
            lemma2_to64();
            if exp > 64 {
                lemma_pow2_strictly_increases(64, exp as nat);
            }
        }
        remaining
    } else {
        proof {
            lemma2_to64();
            lemma_pow2_strictly_increases(exp as nat, 64);
            if exp < 63 {
                lemma_pow2_strictly_increases(exp as nat, 63);
            }
            lemma2_to64_rest();
            lemma_u64_shl_is_mul(1u64, exp as u64);
        }
        let size: u64 = 1u64 << (exp as u64);
        let limit: u64 = size + overhead as u64;
        if remaining as u64 <= limit {
            remaining
        } else {
            limit as usize
        }
    }
}

/// A plaintext has at most `m` chunks exactly when it is at most `m` full
/// chunks long.
pub proof fn lemma_chunk_count_bound(len: nat, exp: u8, m: nat)
    ensures
        chunk_count(len, exp) <= m <==> len <= m * chunk_size(exp),
{
    lemma_pow2_pos(exp as nat);
    let d = chunk_size(exp) as int;
    let top = len + d - 1;
    if len <= m * d {
        lemma_div_is_ordered(top, d * m + (d - 1), d);
        lemma_div_multiples_vanish_fancy(m as int, d - 1, d);
    } else {
        assert(d * (m + 1) + 0 == d * (m + 1));
        assert(d * (m + 1) == m * d + d) by (nonlinear_arith);
        lemma_div_is_ordered(d * (m + 1) + 0, top, d);
        lemma_div_multiples_vanish_fancy(m as int + 1, 0, d);
    }
}

/// Whether a plaintext of `len` bytes, cut with exponent `exp`, has few
/// enough chunks for one container.
pub fn fits_counter(len: usize, exp: u8) -> (ok: bool)
    ensures
        ok == (chunk_count(len as nat, exp) <= MAX_CHUNKS),
{
    proof {
        lemma_chunk_count_bound(len as nat, exp, MAX_CHUNKS as nat);
        lemma2_to64();
        lemma2_to64_rest();
        lemma_pow2_pos(exp as nat);
    }
    if exp >= 33 {
        proof {
            if exp > 33 {
                lemma_pow2_strictly_increases(33, exp as nat);
            }
            let d = chunk_size(exp) as int;
            assert(0xFFFF_FFFF * d >= 0xFFFF_FFFF * 0x2_0000_0000) by (nonlinear_arith)
                requires
                    d >= 0x2_0000_0000,
            ;
        }
        true
    } else {
        proof {
            if exp < 32 {
                lemma_pow2_strictly_increases(exp as nat, 32);
            }
            lemma_pow2_strictly_increases(exp as nat, 64);
            lemma_u64_shl_is_mul(1u64, exp as u64);
            let d = chunk_size(exp) as int;
            assert(0xFFFF_FFFF * d <= 0xFFFF_FFFF * 0x1_0000_0000) by (nonlinear_arith)
                requires
                    0 <= d <= 0x1_0000_0000,
            ;
        }
        let size: u64 = 1u64 << (exp as u64);
        len as u64 <= MAX_CHUNKS * size
    }
}

/// Taking one chunk off a plaintext that is not empty leaves one chunk less.
pub proof fn lemma_chunk_count_step(len: nat, exp: u8)
    requires
        len > 0,
    ensures
        chunk_count(len, exp) == 1 + chunk_count(
            (len - min(len as int, chunk_size(exp) as int)) as nat,
            exp,
        ),
        chunk_count(len, exp) >= 1,
{
    lemma_pow2_pos(exp as nat);
    let d = chunk_size(exp) as int;
    lemma_div_plus_one(len - 1, d);
    assert((d + (len - 1)) / d == (len + d - 1) / d);
    if len <= d {
        lemma_basic_div(len - 1, d);
        lemma_basic_div(d - 1, d);
    } else {
        assert((len - d) + d - 1 == len - 1);
        lemma_div_plus_one(len - 1 - d, d);
        assert((d + (len - 1 - d)) / d == (len - 1) / d);
    }
}

/// Chunk boundary: a plaintext of exactly `q` full chunks is cut into `q`
/// chunks, and its sealed chunks take `q` times the full sealed chunk size.
/// For `q == 0` this says that an empty plaintext has no chunks.
pub proof fn lemma_exact_multiple_chunk_count(q: nat, exp: u8)
    ensures
        chunk_count(q * chunk_size(exp), exp) == q,
        q * chunk_size(exp) + 16 * chunk_count(q * chunk_size(exp), exp) == q * (chunk_size(exp)
            + 16),
    decreases q,
{
    lemma_pow2_pos(exp as nat);
    let d = chunk_size(exp);
    if q == 0 {
        assert(q * d == 0);
        lemma_basic_div(d - 1, d as int);
    } else {
        assert(q * d == (q - 1) * d + d) by (nonlinear_arith);
        assert((q - 1) * d >= 0) by (nonlinear_arith)
            requires
                q >= 1,
                d >= 0,
        ;
        lemma_chunk_count_step(q * d, exp);
        lemma_exact_multiple_chunk_count((q - 1) as nat, exp);
        assert((q * d - min((q * d) as int, d as int)) as nat == ((q - 1) as nat) * d);
    }
    assert(q * d + 16 * q == q * (d + 16)) by (nonlinear_arith);
}

/// An empty plaintext seals to nothing, and nothing opens to an empty
/// plaintext: its container is the header alone.
pub proof fn lemma_empty_plaintext(key: Seq<u8>, header: HeaderView)
    requires
        header.original_size == 0,
    ensures
        sealed_container(key, header, Seq::<u8>::empty()) == header.encoded(),
        opened_body(key, header, Seq::<u8>::empty()) == Ok::<Seq<u8>, CryptoError>(
            Seq::<u8>::empty(),
        ),
{
    assert(sealed_container(key, header, Seq::<u8>::empty()) =~= header.encoded());
    assert(Seq::<u8>::empty().take(0) =~= Seq::<u8>::empty());
}

/// Where the cipher inverts on every chunk of `data`, and the positions fit
/// the counter, the sealed chunks open to `data`, and are as long as `data`
/// and one tag per chunk.
pub proof fn lemma_open_inverts_seal(
    key: Seq<u8>,
    base_nonce: Seq<u8>,
    exp: u8,
    data: Seq<u8>,
    index: nat,
)
    requires
        cipher_inverts(key, base_nonce, exp, data, index),
        index + chunk_count(data.len(), exp) <= MAX_CHUNKS,
    ensures
        opened_stream(key, base_nonce, exp, sealed_stream(key, base_nonce, exp, data, index), index)
            == Some(data),
        sealed_stream(key, base_nonce, exp, data, index).len() == data.len() + 16 * chunk_count(
            data.len(),
            exp,
        ),
    decreases data.len(),
{
    lemma_pow2_pos(exp as nat);
    let s = sealed_stream(key, base_nonce, exp, data, index);
    if data.len() == 0 {
        assert(data =~= Seq::<u8>::empty());
        lemma_basic_div(chunk_size(exp) - 1, chunk_size(exp) as int);
    } else {
        let n = min(data.len() as int, chunk_size(exp) as int);
        let p = data.take(n);
        let c = sealed_chunk(key, base_nonce, index as u32, p);
        let tail = data.skip(n);
        let rest = sealed_stream(key, base_nonce, exp, tail, index + 1);
        lemma_chunk_count_step(data.len(), exp);
        lemma_open_inverts_seal(key, base_nonce, exp, tail, index + 1);
        assert(s == c + rest);
        let m = min(s.len() as int, chunk_size(exp) as int + 16);
        if tail.len() == 0 {
            assert(rest =~= Seq::<u8>::empty());
        }
        assert(m == c.len());
        assert(s.take(m) =~= c);
        assert(s.skip(m) =~= rest);
        assert(p + tail =~= data);
    }
}

/// Round trip: a container made of `data` under the key of `password`, with a
/// header that declares the length of `data`, decrypts with `password` to
/// `data`, provided the cipher inverts on every chunk.
pub proof fn lemma_decrypt_inverts_encrypt(
    password: Seq<u8>,
    key: Seq<u8>,
    header: HeaderView,
    data: Seq<u8>,
)
    requires
        header.wf(),
        header.version == VERSION,
        header.original_size == data.len(),
        derived_key(password, header.salt) == Ok::<Seq<u8>, CryptoError>(key),
        cipher_inverts(key, header.base_nonce, header.chunk_exp, data, 0),
        chunk_count(data.len(), header.chunk_exp) <= MAX_CHUNKS,
    ensures
        opened_container(password, sealed_container(key, header, data)) == Ok::<
            Seq<u8>,
            CryptoError,
        >(data),
{
    let head = header.encoded();
    let body = sealed_stream(key, header.base_nonce, header.chunk_exp, data, 0);
    let whole = sealed_container(key, header, data);
    lemma_decode_inverts_encode(header);
    lemma_encoded_len(header);
    assert(whole.take(44) =~= head);
    assert(whole.skip(44) =~= body);
    lemma_open_inverts_seal(key, header.base_nonce, header.chunk_exp, data, 0);
    assert(data.take(data.len() as int) =~= data);
}

/// The sealed chunk at place `j` of a run of sealed chunks, counted from the
/// front of the run.
pub open spec fn sealed_piece(data: Seq<u8>, exp: u8, j: nat) -> Seq<u8>
    decreases j,
{
    let n = min(data.len() as int, chunk_size(exp) as int + 16);
    if j == 0 {
        data.take(n)
    } else {
        sealed_piece(data.skip(n), exp, (j - 1) as nat)
    }
}

/// The run holds a chunk at place `j`.
pub open spec fn has_piece(data: Seq<u8>, exp: u8, j: nat) -> bool
    decreases j,
{
    let n = min(data.len() as int, chunk_size(exp) as int + 16);
    data.len() > 0 && (j == 0 || has_piece(data.skip(n), exp, (j - 1) as nat))
}

/// One chunk that does not authenticate at its position fails the whole
/// run, wherever it stands: no plaintext comes out.
pub proof fn lemma_failed_chunk_fails_stream(
    key: Seq<u8>,
    base_nonce: Seq<u8>,
    exp: u8,
    data: Seq<u8>,
    index: nat,
    j: nat,
)
    requires
        has_piece(data, exp, j),
        opened_chunk(key, base_nonce, (index + j) as u32, sealed_piece(data, exp, j)) is None,
    ensures
        opened_stream(key, base_nonce, exp, data, index) is None,
    decreases j,
{
    if j > 0 && index < MAX_CHUNKS {
        let n = min(data.len() as int, chunk_size(exp) as int + 16);
        assert(index + 1 + (j - 1) as nat == index + j);
        lemma_failed_chunk_fails_stream(
            key,
            base_nonce,
            exp,
            data.skip(n),
            index + 1,
            (j - 1) as nat,
        );
    }
}

/// A container whose header decodes and whose key derives, but one of whose
/// chunks does not authenticate, decrypts to `DecryptionFailed`.
pub proof fn lemma_failed_chunk_fails_container(password: Seq<u8>, data: Seq<u8>, j: nat)
    requires
        data.len() >= 44,
        parsed(data.take(44)) matches Ok(header) && derived_key(password, header.salt) matches Ok(
            key,
        ) && has_piece(data.skip(44), header.chunk_exp, j) && opened_chunk(
            key,
            header.base_nonce,
            j as u32,
            sealed_piece(data.skip(44), header.chunk_exp, j),
        ) is None,
    ensures
        opened_container(password, data) == Err::<Seq<u8>, CryptoError>(
            CryptoError::DecryptionFailed,
        ),
{
    let header = parsed(data.take(44))->Ok_0;
    let key = derived_key(password, header.salt)->Ok_0;
    lemma_failed_chunk_fails_stream(
        key,
        header.base_nonce,
        header.chunk_exp,
        data.skip(44),
        0,
        j,
    );
}

/// The chunk at place `j` of a plaintext, counted from its front.
pub open spec fn plain_piece(data: Seq<u8>, exp: u8, j: nat) -> Seq<u8>
    decreases j,
{
    let n = min(data.len() as int, chunk_size(exp) as int);
    if j == 0 {
        data.take(n)
    } else {
        plain_piece(data.skip(n), exp, (j - 1) as nat)
    }
}

/// The plaintext has a chunk at place `j`.
pub open spec fn has_plain_piece(data: Seq<u8>, exp: u8, j: nat) -> bool
    decreases j,
{
    let n = min(data.len() as int, chunk_size(exp) as int);
    data.len() > 0 && (j == 0 || has_plain_piece(data.skip(n), exp, (j - 1) as nat))
}

/// Chunk boundary: every chunk of a plaintext of exactly `q` full chunks is
/// a full chunk.
pub proof fn lemma_exact_multiple_full_chunks(data: Seq<u8>, exp: u8, q: nat, j: nat)
    requires
        data.len() == q * chunk_size(exp),
        j < q,
    ensures
        has_plain_piece(data, exp, j),
        plain_piece(data, exp, j).len() == chunk_size(exp),
    decreases j,
{
    lemma_pow2_pos(exp as nat);
    let d = chunk_size(exp);
    assert(q * d == (q - 1) * d + d) by (nonlinear_arith);
    assert((q - 1) * d >= 0) by (nonlinear_arith)
        requires
            q >= 1,
            d >= 0,
    ;
    if j > 0 {
        lemma_exact_multiple_full_chunks(data.skip(d as int), exp, (q - 1) as nat, (j - 1) as nat);
    }
}

/// Where the cipher inverts on every chunk of `data`, the chunk at place `j`
/// of the sealed run is the chunk at place `j` of `data`, sealed at its
/// position.
pub proof fn lemma_sealed_piece_is_sealed_plain_piece(
    key: Seq<u8>,
    base_nonce: Seq<u8>,
    exp: u8,
    data: Seq<u8>,
    index: nat,
    j: nat,
)
    requires
        cipher_inverts(key, base_nonce, exp, data, index),
        has_plain_piece(data, exp, j),
    ensures
        has_piece(sealed_stream(key, base_nonce, exp, data, index), exp, j),
        sealed_piece(sealed_stream(key, base_nonce, exp, data, index), exp, j) == sealed_chunk(
            key,
            base_nonce,
            (index + j) as u32,
            plain_piece(data, exp, j),
        ),
    decreases j,
{
    lemma_pow2_pos(exp as nat);
    let s = sealed_stream(key, base_nonce, exp, data, index);
    let n = min(data.len() as int, chunk_size(exp) as int);
    let c = sealed_chunk(key, base_nonce, index as u32, data.take(n));
    let tail = data.skip(n);
    let rest = sealed_stream(key, base_nonce, exp, tail, index + 1);
    assert(s == c + rest);
    if tail.len() == 0 {
        assert(rest =~= Seq::<u8>::empty());
    }
    let m = min(s.len() as int, chunk_size(exp) as int + 16);
    assert(m == c.len());
    assert(s.take(m) =~= c);
    assert(s.skip(m) =~= rest);
    if j > 0 {
        assert(index + 1 + (j - 1) as nat == index + j);
        lemma_sealed_piece_is_sealed_plain_piece(
            key,
            base_nonce,
            exp,
            tail,
            index + 1,
            (j - 1) as nat,
        );
    }
}

/// Truncation is detected: chunks that all authenticate but hold fewer
/// bytes than the header declares give `DecryptionFailed`, never a prefix.
pub proof fn lemma_short_body_rejected(key: Seq<u8>, header: HeaderView, body: Seq<u8>)
    requires
        opened_stream(key, header.base_nonce, header.chunk_exp, body, 0) matches Some(plain)
            && plain.len() < header.original_size,
    ensures
        opened_body(key, header, body) == Err::<Seq<u8>, CryptoError>(
            CryptoError::DecryptionFailed,
        ),
{
}

/// Whatever decrypts, decrypts to exactly as many bytes as the header
/// declares.
pub proof fn lemma_opened_body_has_declared_size(key: Seq<u8>, header: HeaderView, body: Seq<u8>)
    requires
        opened_body(key, header, body) is Ok,
    ensures
        opened_body(key, header, body)->Ok_0.len() == header.original_size,
{
}

/// Where the cipher inverts on every chunk of `data`, the sealed chunks are
/// as long as `data` and one tag per chunk.
pub proof fn lemma_sealed_stream_len(
    key: Seq<u8>,
    base_nonce: Seq<u8>,
    exp: u8,
    data: Seq<u8>,
    index: nat,
)
    requires
        cipher_inverts(key, base_nonce, exp, data, index),
    ensures
        sealed_stream(key, base_nonce, exp, data, index).len() == data.len() + 16 * chunk_count(
            data.len(),
            exp,
        ),
    decreases data.len(),
{
    lemma_pow2_pos(exp as nat);
    if data.len() == 0 {
        lemma_basic_div(chunk_size(exp) - 1, chunk_size(exp) as int);
    } else {
        let n = min(data.len() as int, chunk_size(exp) as int);
        lemma_chunk_count_step(data.len(), exp);
        lemma_sealed_stream_len(key, base_nonce, exp, data.skip(n), index + 1);
    }
}

/// A chunk of a plaintext that lies wholly inside it is the stretch of
/// `2^exp` bytes that starts at `j` full chunks.
pub proof fn lemma_plain_piece_is_subrange(data: Seq<u8>, exp: u8, j: nat)
    requires
        (j + 1) * chunk_size(exp) <= data.len(),
    ensures
        has_plain_piece(data, exp, j),
        plain_piece(data, exp, j) == data.subrange(
            (j * chunk_size(exp)) as int,
            ((j + 1) * chunk_size(exp)) as int,
        ),
    decreases j,
{
    lemma_pow2_pos(exp as nat);
    let d = chunk_size(exp) as int;
    assert((j + 1) * d == j * d + d) by (nonlinear_arith);
    assert(j * d >= 0) by (nonlinear_arith)
        requires
            j >= 0,
            d >= 0,
    ;
    if j == 0 {
        assert(j * d == 0 && (j + 1) * d == d) by (nonlinear_arith)
            requires
                j == 0,
        ;
        assert(data.take(d) =~= data.subrange(0, d));
    } else {
        let tail = data.skip(d);
        let k = (j - 1) as nat;
        assert(k * d + d == j * d && (k + 1) * d == j * d) by (nonlinear_arith)
            requires
                k + 1 == j,
        ;
        lemma_plain_piece_is_subrange(tail, exp, k);
        assert(tail.subrange(k * d, (k + 1) * d) =~= data.subrange(j * d, (j + 1) * d));
    }
}

/// A sealed chunk that lies wholly inside a run is the stretch of
/// `2^exp + 16` bytes that starts at `j` full sealed chunks.
pub proof fn lemma_sealed_piece_is_subrange(data: Seq<u8>, exp: u8, j: nat)
    requires
        (j + 1) * (chunk_size(exp) + 16) <= data.len(),
    ensures
        has_piece(data, exp, j),
        sealed_piece(data, exp, j) == data.subrange(
            (j * (chunk_size(exp) + 16)) as int,
            ((j + 1) * (chunk_size(exp) + 16)) as int,
        ),
    decreases j,
{
    let d = chunk_size(exp) as int + 16;
    assert((j + 1) * d == j * d + d) by (nonlinear_arith);
    assert(j * d >= 0) by (nonlinear_arith)
        requires
            j >= 0,
            d >= 0,
    ;
    if j == 0 {
        assert(j * d == 0 && (j + 1) * d == d) by (nonlinear_arith)
            requires
                j == 0,
        ;
        assert(data.take(d) =~= data.subrange(0, d));
    } else {
        let tail = data.skip(d);
        let k = (j - 1) as nat;
        assert(k * d + d == j * d && (k + 1) * d == j * d) by (nonlinear_arith)
            requires
                k + 1 == j,
        ;
        lemma_sealed_piece_is_subrange(tail, exp, k);
        assert(tail.subrange(k * d, (k + 1) * d) =~= data.subrange(j * d, (j + 1) * d));
    }
}

/// Chunk boundary, in place: in the sealed run of a plaintext of exactly `q`
/// full chunks, the bytes from `i` full sealed chunks on are the `i`-th
/// stretch of `2^exp` plaintext bytes, sealed at position `i`.
pub proof fn lemma_full_chunks_in_place(
    key: Seq<u8>,
    base_nonce: Seq<u8>,
    exp: u8,
    data: Seq<u8>,
    q: nat,
    i: nat,
)
    requires
        cipher_inverts(key, base_nonce, exp, data, 0),
        data.len() == q * chunk_size(exp),
        i < q,
    ensures
        sealed_stream(key, base_nonce, exp, data, 0).len() == q * (chunk_size(exp) + 16),
        sealed_stream(key, base_nonce, exp, data, 0).subrange(
            (i * (chunk_size(exp) + 16)) as int,
            ((i + 1) * (chunk_size(exp) + 16)) as int,
        ) == sealed_chunk(
            key,
            base_nonce,
            i as u32,
            data.subrange((i * chunk_size(exp)) as int, ((i + 1) * chunk_size(exp)) as int),
        ),
{
    let d = chunk_size(exp) as int;
    let s = sealed_stream(key, base_nonce, exp, data, 0);
    lemma_sealed_stream_len(key, base_nonce, exp, data, 0);
    lemma_exact_multiple_chunk_count(q, exp);
    assert((i + 1) * d <= q * d) by (nonlinear_arith)
        requires
            i + 1 <= q,
            d >= 0,
    ;
    assert((i + 1) * (d + 16) <= q * (d + 16)) by (nonlinear_arith)
        requires
            i + 1 <= q,
            d >= 0,
    ;
    lemma_plain_piece_is_subrange(data, exp, i);
    lemma_sealed_piece_is_sealed_plain_piece(key, base_nonce, exp, data, 0, i);
    lemma_sealed_piece_is_subrange(s, exp, i);
}

} // verus!
