use pbtdl::model::{
    decode_hex, encode_hex, identity_in, sanitize_display_text, truncate_display, without_marks,
    InfoHash, MagnetError, MagnetUri,
};

const HEX_HASH: &str = "0123456789abcdef0123456789abcdef01234567";

fn hash_bytes() -> Vec<u8> {
    (0..HEX_HASH.len())
        .step_by(2)
        .map(|index| u8::from_str_radix(&HEX_HASH[index..index + 2], 16).expect("fixture hash"))
        .collect()
}

#[test]
fn parses_and_canonicalizes_hex_info_hash() {
    let magnet = format!("magnet:?dn=Example&xt=urn:btih:{}", HEX_HASH.to_uppercase());
    let parsed = MagnetUri::from_str(&magnet).expect("valid magnet");

    assert_eq!(parsed.info_hash().as_str(), HEX_HASH);
}

#[test]
fn parses_base32_info_hash() {
    let base32 = data_encoding::BASE32_NOPAD.encode(&hash_bytes());
    let parsed = MagnetUri::from_str(&format!("magnet:?xt=urn:btih:{base32}"))
        .expect("valid base32 magnet");

    assert_eq!(parsed.info_hash().as_str(), HEX_HASH);
}

#[test]
fn rejects_missing_or_invalid_download_identity() {
    for value in [
        "https://example.test/file.torrent",
        "magnet:?dn=no-identity",
        "magnet:?xt=urn:btih:not-a-hash",
        "magnet:?xt=urn:btmh:0123456789abcdef",
    ] {
        assert!(MagnetUri::from_str(value).is_err(), "accepted {value}");
    }
}

#[test]
fn truncates_unicode_on_character_boundaries() {
    assert_eq!(truncate_display("Rust 🦀 résumé", 6), "Rust 🦀");
    assert_eq!(truncate_display("短い", 20), "短い");
}

#[test]
fn each_magnet_error_has_its_cause() {
    assert_eq!(MagnetUri::from_str("not a url").err(), Some(MagnetError::InvalidUri));
    assert_eq!(
        MagnetUri::from_str("https://example.test/").err(),
        Some(MagnetError::UnsupportedScheme)
    );
    assert_eq!(
        MagnetUri::from_str("magnet:?dn=name").err(),
        Some(MagnetError::MissingInfoHash)
    );
    assert_eq!(
        MagnetUri::from_str("magnet:?xt=urn:btih:xyz").err(),
        Some(MagnetError::InvalidInfoHash)
    );
    for error in [
        MagnetError::InvalidUri,
        MagnetError::UnsupportedScheme,
        MagnetError::MissingInfoHash,
        MagnetError::InvalidInfoHash,
    ] {
        assert!(!error.message().is_empty());
    }
}

#[test]
fn the_case_of_a_hash_does_not_matter() {
    let lower = InfoHash::from_str(HEX_HASH).expect("lower");
    let upper = InfoHash::from_str(&HEX_HASH.to_uppercase()).expect("upper");
    assert_eq!(lower, upper);

    let base32 = data_encoding::BASE32_NOPAD.encode(&hash_bytes());
    let one = InfoHash::from_str(&base32).expect("upper base32");
    let two = InfoHash::from_str(&base32.to_lowercase()).expect("lower base32");
    assert_eq!(one, two);
    assert_eq!(one, lower);
}

#[test]
fn a_canonical_hash_is_its_own_reading() {
    let hash = InfoHash::from_str(HEX_HASH).expect("hash");
    assert_eq!(InfoHash::from_str(hash.as_str()), Ok(hash.clone()));
    assert_eq!(hash.as_str().len(), 40);
}

#[test]
fn base32_symbols_outside_the_alphabet_are_refused() {
    for value in [
        "01234567890123456789012345678901",
        "AAAAAAAAAAAAAAAAAAAAAAAAAAAAAAA=",
        "AAAAAAAAAAAAAAAAAAAAAAAAAAAAAAA8",
    ] {
        assert_eq!(InfoHash::from_str(value), Err(MagnetError::InvalidInfoHash));
    }
    let zeros = InfoHash::from_str("AAAAAAAAAAAAAAAAAAAAAAAAAAAAAAAA").expect("zeros");
    assert_eq!(zeros.as_str(), "0000000000000000000000000000000000000000");
    let last = InfoHash::from_str("AAAAAAAAAAAAAAAAAAAAAAAAAAAAAAA7").expect("last symbol");
    assert_eq!(last.as_str(), "000000000000000000000000000000000000001f");
}

#[test]
fn wrong_lengths_are_no_hash() {
    for value in ["", "0", "0123456789abcdef0123456789abcdef0123456", "ab"] {
        assert_eq!(InfoHash::from_str(value), Err(MagnetError::InvalidInfoHash));
    }
    // 40 bytes that are not ASCII.
    assert_eq!(InfoHash::from_str(&"é".repeat(20)), Err(MagnetError::InvalidInfoHash));
}

#[test]
fn the_first_identity_of_a_magnet_counts() {
    let other = "f".repeat(40);
    let magnet = MagnetUri::from_str(&format!(
        "magnet:?xt=urn:sha1:abc&xt=urn:btih:{HEX_HASH}&xt=urn:btih:{other}"
    ))
    .expect("magnet");
    assert_eq!(magnet.info_hash().as_str(), HEX_HASH);
}

#[test]
fn identities_come_from_query_pairs() {
    let pairs = vec![
        ("dn".to_string(), "name".to_string()),
        ("xt".to_string(), format!("URN:BTIH:{HEX_HASH}")),
    ];
    let found = identity_in(&pairs).expect("identity");
    assert_eq!(found.as_str(), HEX_HASH);
    assert_eq!(identity_in(&Vec::new()), Err(MagnetError::MissingInfoHash));
}

#[test]
fn display_text_is_inert() {
    assert_eq!(sanitize_display_text("a\u{1b}b\u{202e}c", 10), "abc");
    assert_eq!(sanitize_display_text("abcdef", 3), "abc");
    assert_eq!(sanitize_display_text("", 3), "");
}

#[test]
fn a_magnet_keeps_its_text() {
    let text = format!("magnet:?xt=urn:btih:{HEX_HASH}&dn=name");
    assert_eq!(MagnetUri::from_str(&text).expect("magnet").as_str(), text);
}

#[test]
fn hexadecimal_digits_are_read_back() {
    let all: Vec<u8> = (0..=255).collect();
    for bytes in [&all[..0], &all[..1], &all[250..], &all[..]] {
        let written = encode_hex(bytes);
        assert_eq!(written.len(), 2 * bytes.len());
        assert_eq!(decode_hex(&written), Ok(bytes.to_vec()));
        assert_eq!(decode_hex(&written.to_ascii_uppercase()), Ok(bytes.to_vec()));
    }
    assert_eq!(encode_hex(&[0x00, 0x0f, 0xa9]), "000fa9");
    assert_eq!(decode_hex("0g"), Err(MagnetError::InvalidInfoHash));
    assert_eq!(decode_hex("0aé"), Err(MagnetError::InvalidInfoHash));
    assert_eq!(decode_hex("0a1"), Ok(vec![10]));
}

#[test]
fn marks_are_taken_out() {
    assert_eq!(without_marks(" a\u{7}\tb\u{2066}c "), " abc ");
}
