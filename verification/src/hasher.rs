use vstd::prelude::*;

use crate::errors::IngestError;
use crate::hex::{bytes_to_hex, hex_of, is_hex_lower_char};

verus! {

/// The 32-byte BLAKE3 digest of a byte sequence. The digest is a pure
/// function of the input bytes, identical on every machine and in every run.
pub uninterp spec fn blake3_digest_of(data: Seq<u8>) -> Seq<u8>;

/// The 32-byte keyed BLAKE3 digest of a byte sequence under a 32-byte key.
/// It is a pure function of the key and the input bytes.
pub uninterp spec fn blake3_keyed_digest_of(key: Seq<u8>, data: Seq<u8>) -> Seq<u8>;

/// The digest of a byte sequence, rendered as 64 lowercase hex characters.
pub open spec fn hash_of(data: Seq<u8>) -> Seq<char> {
    hex_of(blake3_digest_of(data))
}

/// The keyed digest of a byte sequence, rendered as 64 lowercase hex
/// characters.
pub open spec fn keyed_hash_of(key: Seq<u8>, data: Seq<u8>) -> Seq<char> {
    hex_of(blake3_keyed_digest_of(key, data))
}

/// Relies on blake3::hash and blake3::Hash::as_bytes: the digest is 32 bytes
/// and depends on the input bytes alone.
#[verifier::external_body]
pub(crate) fn blake3_digest(data: &[u8]) -> (r: Vec<u8>)
    ensures
        r@ == blake3_digest_of(data@),
        r@.len() == 32,
{
    blake3::hash(data).as_bytes().to_vec()
}

/// Relies on blake3::keyed_hash and blake3::Hash::as_bytes: the digest is 32
/// bytes and depends on the 32-byte key and the input bytes alone.
#[verifier::external_body]
fn blake3_keyed_digest(key: &[u8], data: &[u8]) -> (r: Vec<u8>)
    requires
        key@.len() == 32,
    ensures
        r@ == blake3_keyed_digest_of(key@, data@),
        r@.len() == 32,
{
    let mut key_array = [0u8; 32];
    key_array.copy_from_slice(key);
    blake3::keyed_hash(&key_array, data).as_bytes().to_vec()
}

/// Hash a byte sequence with unkeyed BLAKE3.
///
/// Total over all inputs, including the empty one: the result is always the
/// 64-character lowercase hex rendering of the 32-byte digest of `data`.
pub fn hash_blake3(data: &[u8]) -> (r: String)
    ensures
        r@ == hash_of(data@),
        r@.len() == 64,
        forall|i: int| 0 <= i < r@.len() ==> is_hex_lower_char(#[trigger] r@[i]),
{
    let digest = blake3_digest(data);
    proof {
        crate::hex::lemma_hex_of_props(digest@);
    }
    bytes_to_hex(&digest)
}

/// Key material for keyed hashing: exactly 32 raw bytes, validated once at
/// construction and trusted thereafter.
pub struct KeyMaterial {
    bytes: Vec<u8>,
}

impl View for KeyMaterial {
    type V = Seq<u8>;

    closed spec fn view(&self) -> Seq<u8> {
        self.bytes@
    }
}

impl KeyMaterial {
    /// A well-formed key holds exactly 32 bytes.
    pub open spec fn wf(&self) -> bool {
        self@.len() == 32
    }

    /// Build key material from raw bytes.
    ///
    /// Succeeds exactly when `bytes` is 32 bytes long; any other length is
    /// rejected with `InvalidKeyLength` before any hashing work occurs.
    pub fn new(bytes: Vec<u8>) -> (r: Result<KeyMaterial, IngestError>)
        ensures
            r is Ok <==> bytes@.len() == 32,
            r is Ok ==> r->Ok_0.wf() && r->Ok_0@ == bytes@,
            r is Err ==> r->Err_0 == IngestError::InvalidKeyLength,
    {
        if bytes.len() == 32 {
            Ok(KeyMaterial { bytes })
        } else {
            Err(IngestError::InvalidKeyLength)
        }
    }

    /// Hash a byte sequence with BLAKE3 keyed by this key.
    ///
    /// The result is the 64-character lowercase hex rendering of the 32-byte
    /// keyed digest of `data` under this key.
    pub fn hash(&self, data: &[u8]) -> (r: String)
        requires
            self.wf(),
        ensures
            r@ == keyed_hash_of(self@, data@),
            r@.len() == 64,
            forall|i: int| 0 <= i < r@.len() ==> is_hex_lower_char(#[trigger] r@[i]),
    {
        let digest = blake3_keyed_digest(self.bytes.as_slice(), data);
        proof {
            crate::hex::lemma_hex_of_props(digest@);
        }
        bytes_to_hex(&digest)
    }
}

/// Hash a byte sequence with keyed BLAKE3.
///
/// Fails with `InvalidKeyLength` exactly when `key` is not 32 bytes long,
/// before any hashing work occurs; otherwise returns the 64-character
/// lowercase hex rendering of the keyed digest of `data` under `key`.
pub fn hash_blake3_keyed(data: &[u8], key: &[u8]) -> (r: Result<String, IngestError>)
    ensures
        r is Ok <==> key@.len() == 32,
        r is Ok ==> r->Ok_0@ == keyed_hash_of(key@, data@) && r->Ok_0@.len() == 64,
        r is Ok ==> forall|i: int|
            0 <= i < r->Ok_0@.len() ==> is_hex_lower_char(#[trigger] r->Ok_0@[i]),
        r is Err ==> r->Err_0 == IngestError::InvalidKeyLength,
{
    if key.len() != 32 {
        return Err(IngestError::InvalidKeyLength);
    }
    let digest = blake3_keyed_digest(key, data);
    proof {
        crate::hex::lemma_hex_of_props(digest@);
    }
    Ok(bytes_to_hex(&digest))
}

} // verus!
