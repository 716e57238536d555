//! Deterministic content fingerprinting for a document ingestion pipeline.
//!
//! Turns raw bytes or canonicalized text into stable BLAKE3 digests, rendered
//! as 64-character lowercase hex strings, and combines many leaf digests into
//! a single order-independent root digest. Unicode text is canonicalized to
//! NFC or NFD before hashing, and can be split into extended grapheme
//! clusters for stable tokenization.

mod aggregator;
mod errors;
mod hasher;
mod hex;
mod normalizer;
mod segmenter;

pub use aggregator::{
    compute_merkle_root, digest_le, digest_leq, lemma_digest_total_ordering,
    lemma_root_of_single, lemma_root_order_independent, root_of,
};
pub use errors::IngestError;
pub use hasher::{
    blake3_digest_of, blake3_keyed_digest_of, hash_blake3, hash_blake3_keyed, hash_of,
    keyed_hash_of, KeyMaterial,
};
pub use hex::{bytes_to_hex, hex_of, is_hex_lower_char, nibble_char};
pub use normalizer::{nfc_of, nfd_of, normalize_unicode_nfc, normalize_unicode_nfd};
pub use segmenter::{graphemes_of, segment_graphemes};
