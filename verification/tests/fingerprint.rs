use spc_ingestion::{
    compute_merkle_root, hash_blake3, hash_blake3_keyed, normalize_unicode_nfc,
    normalize_unicode_nfd, segment_graphemes, IngestError, KeyMaterial,
};

fn is_lower_hex(s: &str) -> bool {
    s.chars().all(|c| c.is_ascii_digit() || ('a'..='f').contains(&c))
}

#[test]
fn test_blake3_hash() {
    let data = b"hello world";
    let hash = hash_blake3(data);
    assert_eq!(hash.len(), 64); // 32 bytes = 64 hex chars
}

#[test]
fn test_unicode_normalization() {
    let text = "caf\u{e9}";
    let nfc = normalize_unicode_nfc(text);
    let nfd = normalize_unicode_nfd(text);

    assert_ne!(nfc.len(), nfd.len()); // Decomposed form has more chars
}

#[test]
fn hash_is_deterministic_and_lower_hex() {
    let data = b"some document body";
    let first = hash_blake3(data);
    let second = hash_blake3(data);
    assert_eq!(first, second);
    assert_eq!(first.len(), 64);
    assert!(is_lower_hex(&first));
}

#[test]
fn hash_of_empty_input() {
    let hash = hash_blake3(b"");
    assert_eq!(hash.len(), 64);
    assert!(is_lower_hex(&hash));
}

#[test]
fn hash_golden_vector() {
    // Reference BLAKE3 digest of b"hello world".
    let hash = hash_blake3(b"hello world");
    assert_eq!(
        hash,
        "d74981efa70a0c880b8d8c1985d075dbcbf679b99a5f9914e5aaf96b831a9e24"
    );
}

#[test]
fn keyed_hash_rejects_bad_key_lengths() {
    let data = b"payload";
    for len in [0usize, 16, 31, 33] {
        let key = vec![7u8; len];
        let result = hash_blake3_keyed(data, &key);
        assert_eq!(result, Err(IngestError::InvalidKeyLength));
    }
}

#[test]
fn keyed_hash_accepts_32_byte_key() {
    let data = b"payload";
    let key = vec![7u8; 32];
    let digest = hash_blake3_keyed(data, &key).unwrap();
    assert_eq!(digest.len(), 64);
    assert!(is_lower_hex(&digest));
}

#[test]
fn keyed_hash_differs_from_unkeyed_and_between_keys() {
    let data = b"domain separation";
    let key_a = vec![1u8; 32];
    let key_b = vec![2u8; 32];
    let unkeyed = hash_blake3(data);
    let keyed_a = hash_blake3_keyed(data, &key_a).unwrap();
    let keyed_b = hash_blake3_keyed(data, &key_b).unwrap();
    assert_ne!(unkeyed, keyed_a);
    assert_ne!(unkeyed, keyed_b);
    assert_ne!(keyed_a, keyed_b);
}

#[test]
fn key_material_validates_once() {
    assert_eq!(
        KeyMaterial::new(vec![0u8; 31]).err(),
        Some(IngestError::InvalidKeyLength)
    );
    assert_eq!(
        KeyMaterial::new(vec![0u8; 33]).err(),
        Some(IngestError::InvalidKeyLength)
    );
    let key = KeyMaterial::new(vec![9u8; 32]).unwrap();
    let via_key = key.hash(b"payload");
    let direct = hash_blake3_keyed(b"payload", &[9u8; 32]).unwrap();
    assert_eq!(via_key, direct);
}

#[test]
fn root_is_order_independent() {
    let a = hash_blake3(b"alpha");
    let b = hash_blake3(b"beta");
    let c = hash_blake3(b"gamma");
    let orders = [
        vec![a.clone(), b.clone(), c.clone()],
        vec![a.clone(), c.clone(), b.clone()],
        vec![b.clone(), a.clone(), c.clone()],
        vec![b.clone(), c.clone(), a.clone()],
        vec![c.clone(), a.clone(), b.clone()],
        vec![c.clone(), b.clone(), a.clone()],
    ];
    let reference = compute_merkle_root(&orders[0]).unwrap();
    for order in &orders {
        assert_eq!(compute_merkle_root(order).unwrap(), reference);
    }
}

#[test]
fn root_of_empty_input_fails() {
    let digests: Vec<String> = Vec::new();
    assert_eq!(compute_merkle_root(&digests), Err(IngestError::EmptyInput));
}

#[test]
fn root_of_single_digest_is_its_hash() {
    let digest = hash_blake3(b"only document");
    let root = compute_merkle_root(&vec![digest.clone()]).unwrap();
    assert_eq!(root, hash_blake3(digest.as_bytes()));
}

#[test]
fn root_sorts_then_concatenates() {
    // Sorted byte-wise, "a" comes before "b", so the root commits to "ab".
    let digests = vec![String::from("b"), String::from("a")];
    let root = compute_merkle_root(&digests).unwrap();
    assert_eq!(root, hash_blake3(b"ab"));
}

#[test]
fn root_counts_duplicates() {
    let d = hash_blake3(b"doc");
    let once = compute_merkle_root(&vec![d.clone()]).unwrap();
    let twice = compute_merkle_root(&vec![d.clone(), d.clone()]).unwrap();
    assert_ne!(once, twice);
}

#[test]
fn normalization_is_idempotent() {
    let text = "cafe\u{301} na\u{ef}ve \u{212b}ngstr\u{f6}m";
    let nfc = normalize_unicode_nfc(text);
    assert_eq!(normalize_unicode_nfc(&nfc), nfc);
    let nfd = normalize_unicode_nfd(text);
    assert_eq!(normalize_unicode_nfd(&nfd), nfd);
}

#[test]
fn canonical_equivalence_is_preserved() {
    // The same word, composed and decomposed: equivalent inputs normalize to
    // identical text in either form, so they hash identically once
    // canonicalized.
    let composed = "caf\u{e9}";
    let decomposed = "cafe\u{301}";
    assert_ne!(composed.as_bytes(), decomposed.as_bytes());
    assert_eq!(
        normalize_unicode_nfc(composed),
        normalize_unicode_nfc(decomposed)
    );
    assert_eq!(
        normalize_unicode_nfd(composed),
        normalize_unicode_nfd(decomposed)
    );
    let via_nfc = normalize_unicode_nfd(&normalize_unicode_nfc(decomposed));
    assert_eq!(via_nfc, normalize_unicode_nfd(decomposed));
    assert_eq!(
        hash_blake3(normalize_unicode_nfc(composed).as_bytes()),
        hash_blake3(normalize_unicode_nfc(decomposed).as_bytes())
    );
}

#[test]
fn nfd_is_never_shorter_than_nfc() {
    for text in ["", "abc", "e\u{301}", "caf\u{e9}", "\u{212b}ngstr\u{f6}m \u{1f44b}\u{1f3fb}"] {
        let nfc = normalize_unicode_nfc(text);
        let nfd = normalize_unicode_nfd(text);
        assert!(nfd.chars().count() >= nfc.chars().count());
    }
    // Strictly greater for a composable base-plus-combining-mark sequence.
    let nfc = normalize_unicode_nfc("e\u{301}");
    let nfd = normalize_unicode_nfd("e\u{301}");
    assert!(nfd.chars().count() > nfc.chars().count());
}

#[test]
fn nfc_composes_and_nfd_decomposes() {
    // Latin small letter e followed by combining acute accent.
    let text = "e\u{301}";
    let nfc = normalize_unicode_nfc(text);
    let nfd = normalize_unicode_nfd(text);
    assert_eq!(nfc.chars().count(), 1);
    assert_eq!(nfc, "\u{e9}");
    assert_eq!(nfd.chars().count(), 2);
    assert_eq!(nfd, "e\u{301}");
    assert!(nfd.chars().count() > nfc.chars().count());
}

#[test]
fn graphemes_keep_emoji_sequences_whole() {
    // Waving hand followed by a skin-tone modifier forms one cluster.
    let text = "hi \u{1f44b}\u{1f3fb}!";
    let clusters = segment_graphemes(text);
    assert!(clusters.contains(&String::from("\u{1f44b}\u{1f3fb}")));
    let joined: String = clusters.concat();
    assert_eq!(joined, text);
}

#[test]
fn graphemes_split_plain_text() {
    let clusters = segment_graphemes("ab");
    assert_eq!(clusters, vec![String::from("a"), String::from("b")]);
}

#[test]
fn graphemes_keep_combining_marks_attached() {
    let text = "a\u{310}e\u{301}o\u{308}\u{332}";
    let clusters = segment_graphemes(text);
    assert_eq!(
        clusters,
        vec![
            String::from("a\u{310}"),
            String::from("e\u{301}"),
            String::from("o\u{308}\u{332}"),
        ]
    );
    let joined: String = clusters.concat();
    assert_eq!(joined, text);
}

#[test]
fn error_messages_name_the_failure() {
    assert_eq!(
        IngestError::InvalidKeyLength.message(),
        "Key must be exactly 32 bytes"
    );
    assert_eq!(IngestError::EmptyInput.message(), "Hash list cannot be empty");
}
