//! The fixed-size container header and its codec.

use vstd::prelude::*;
use vstd::bytes::{spec_u64_from_le_bytes, spec_u64_to_le_bytes, u64_from_le_bytes, u64_to_le_bytes};
use vstd::bytes::lemma_auto_spec_u64_to_from_le_bytes;
use vstd::slice::slice_subrange;
use crate::bytes::{append_bytes, array_from_range};

verus! {

/// The only format version this library reads.
pub const VERSION: u8 = 0x01;

/// Identifier of Argon2id in the header's key-derivation field.
pub const KDF_ARGON2ID: u8 = 0x01;

/// Identifier of AES-256-GCM in the header's cipher field.
pub const CIPHER_AES_256_GCM: u8 = 0x01;

/// Length in bytes of an encoded header.
pub const HEADER_SIZE: usize = 44;

/// The four bytes every container starts with: `ACRY`.
pub open spec fn magic() -> Seq<u8> {
    seq![0x41u8, 0x43u8, 0x52u8, 0x59u8]
}

/// Why a buffer was not accepted as a header.
#[derive(Debug, Clone, Copy, PartialEq, Eq)]
pub enum HeaderError {
    /// The buffer does not start with the magic bytes.
    InvalidMagic,
    /// The magic matched but the version byte, carried here, is not [`VERSION`].
    UnsupportedVersion(u8),
    /// The buffer is shorter than [`HEADER_SIZE`].
    InvalidLength,
}

/// The header of a container.
#[derive(Debug, Clone, Copy, PartialEq, Eq)]
pub struct FileHeader {
    pub version: u8,
    pub kdf: u8,
    pub cipher: u8,
    /// The plaintext chunk size is two to this power.
    pub chunk_exp: u8,
    pub salt: [u8; 16],
    pub base_nonce: [u8; 12],
    /// Exact length of the plaintext.
    pub original_size: u64,
}

/// A header as plain mathematical values.
pub struct HeaderView {
    pub version: u8,
    pub kdf: u8,
    pub cipher: u8,
    pub chunk_exp: u8,
    pub salt: Seq<u8>,
    pub base_nonce: Seq<u8>,
    pub original_size: u64,
}

impl View for FileHeader {
    type V = HeaderView;

    open spec fn view(&self) -> HeaderView {
        HeaderView {
            version: self.version,
            kdf: self.kdf,
            cipher: self.cipher,
            chunk_exp: self.chunk_exp,
            salt: self.salt@,
            base_nonce: self.base_nonce@,
            original_size: self.original_size,
        }
    }
}

impl HeaderView {
    /// Salt and base nonce have the lengths the layout gives them.
    pub open spec fn wf(self) -> bool {
        self.salt.len() == 16 && self.base_nonce.len() == 12
    }

    /// The 44 bytes that stand for this header.
    pub open spec fn encoded(self) -> Seq<u8> {
        magic() + seq![self.version, self.kdf, self.cipher, self.chunk_exp] + self.salt
            + self.base_nonce + spec_u64_to_le_bytes(self.original_size)
    }
}

/// What decoding `data` gives: the header its first 44 bytes stand for, or the
/// first reason, in the order length, magic, version, why there is none.
pub open spec fn parsed(data: Seq<u8>) -> Result<HeaderView, HeaderError> {
    if data.len() < 44 {
        Err(HeaderError::InvalidLength)
    } else if data.subrange(0, 4) != magic() {
        Err(HeaderError::InvalidMagic)
    } else if data[4] != VERSION {
        Err(HeaderError::UnsupportedVersion(data[4]))
    } else {
        Ok(
            HeaderView {
                version: data[4],
                kdf: data[5],
                cipher: data[6],
                chunk_exp: data[7],
                salt: data.subrange(8, 24),
                base_nonce: data.subrange(24, 36),
                original_size: spec_u64_from_le_bytes(data.subrange(36, 44)),
            },
        )
    }
}

impl FileHeader {
    /// Serialises the header in the fixed layout.
    pub fn encode(&self) -> (buf: Vec<u8>)
        ensures
            buf@ == self@.encoded(),
            buf@.len() == 44,
    {
        let mut buf: Vec<u8> = Vec::with_capacity(HEADER_SIZE);
        buf.push(0x41u8);
        buf.push(0x43u8);
        buf.push(0x52u8);
        buf.push(0x59u8);
        buf.push(self.version);
        buf.push(self.kdf);
        buf.push(self.cipher);
        buf.push(self.chunk_exp);
        assert(buf@ == magic() + seq![self.version, self.kdf, self.cipher, self.chunk_exp]);
        append_bytes(&mut buf, self.salt.as_slice());
        append_bytes(&mut buf, self.base_nonce.as_slice());
        let size_bytes = u64_to_le_bytes(self.original_size);
        append_bytes(&mut buf, size_bytes.as_slice());
        proof {
            lemma_auto_spec_u64_to_from_le_bytes();
        }
        buf
    }

    /// Reads a header from the first 44 bytes of `data`. The algorithm
    /// identifiers are copied, not checked.
    pub fn decode(data: &[u8]) -> (r: Result<FileHeader, HeaderError>)
        ensures
            match r {
                Ok(h) => parsed(data@) == Ok::<HeaderView, HeaderError>(h@),
                Err(e) => parsed(data@) == Err::<HeaderView, HeaderError>(e),
            },
    {
        if data.len() < HEADER_SIZE {
            return Err(HeaderError::InvalidLength);
        }
        if data[0] != 0x41u8 || data[1] != 0x43u8 || data[2] != 0x52u8 || data[3] != 0x59u8 {
            assert(data@.subrange(0, 4)[0] == data@[0]);
            assert(data@.subrange(0, 4)[1] == data@[1]);
            assert(data@.subrange(0, 4)[2] == data@[2]);
            assert(data@.subrange(0, 4)[3] == data@[3]);
            return Err(HeaderError::InvalidMagic);
        }
        assert(data@.subrange(0, 4) =~= magic());
        let version = data[4];
        if version != VERSION {
            return Err(HeaderError::UnsupportedVersion(version));
        }
        let salt: [u8; 16] = array_from_range::<16>(data, 8);
        let base_nonce: [u8; 12] = array_from_range::<12>(data, 24);
        let original_size = u64_from_le_bytes(slice_subrange(data, 36, 44));
        Ok(
            FileHeader {
                version,
                kdf: data[5],
                cipher: data[6],
                chunk_exp: data[7],
                salt,
                base_nonce,
                original_size,
            },
        )
    }
}

/// An encoded header is 44 bytes long.
pub proof fn lemma_encoded_len(h: HeaderView)
    requires
        h.wf(),
    ensures
        h.encoded().len() == 44,
{
    lemma_auto_spec_u64_to_from_le_bytes();
}

/// Decoding what `encode` wrote gives the header back, when its version is
/// the supported one.
pub proof fn lemma_decode_inverts_encode(h: HeaderView)
    requires
        h.wf(),
        h.version == VERSION,
    ensures
        parsed(h.encoded()) == Ok::<HeaderView, HeaderError>(h),
{
    lemma_auto_spec_u64_to_from_le_bytes();
    let e = h.encoded();
    assert(e.len() == 44);
    assert(e.subrange(0, 4) =~= magic());
    assert(e.subrange(8, 24) =~= h.salt);
    assert(e.subrange(24, 36) =~= h.base_nonce);
    assert(e.subrange(36, 44) =~= spec_u64_to_le_bytes(h.original_size));
}

/// A buffer shorter than the header is refused for its length, whatever it
/// holds.
pub proof fn lemma_short_buffer_rejected(data: Seq<u8>)
    requires
        data.len() < 44,
    ensures
        parsed(data) == Err::<HeaderView, HeaderError>(HeaderError::InvalidLength),
{
}

/// A buffer of sufficient length whose first four bytes differ from the magic
/// in any position is refused as not being a container.
pub proof fn lemma_mutated_magic_rejected(data: Seq<u8>, i: int)
    requires
        data.len() >= 44,
        0 <= i < 4,
        data[i] != magic()[i],
    ensures
        parsed(data) == Err::<HeaderView, HeaderError>(HeaderError::InvalidMagic),
{
    assert(data.subrange(0, 4)[i] == data[i]);
}

/// A buffer with the right magic and another version byte is refused, and
/// the error carries that byte.
pub proof fn lemma_unknown_version_rejected(data: Seq<u8>)
    requires
        data.len() >= 44,
        data.subrange(0, 4) == magic(),
        data[4] != VERSION,
    ensures
        parsed(data) == Err::<HeaderView, HeaderError>(HeaderError::UnsupportedVersion(data[4])),
{
}

} // verus!
