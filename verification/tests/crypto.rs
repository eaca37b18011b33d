use cpsl::crypto::{
    decode_hex_text, decrypt_inputs, derive_key, encode_hex_text, hmac_sha256_hex,
    hmac_sha512_hex, md5_hex, parse_algorithm, random_bytes_count, sha256_hex, sha512_hex,
    JwtAlgorithm,
};

#[test]
fn digests_in_hex() {
    assert_eq!(
        sha256_hex(b"hello world"),
        "b94d27b9934d3e08a52e52d7da7dabfac484efe37a5380ee9088f7ace2efcde9"
    );
    assert_eq!(
        sha256_hex(b""),
        "e3b0c44298fc1c149afbf4c8996fb92427ae41e4649b934ca495991b7852b855"
    );
    assert_eq!(
        sha512_hex(b"abc"),
        "ddaf35a193617abacc417349ae20413112e6fa4e89a97ea20a9eeee64b55d39a2192992a274fc1a836ba3c23a3feebbd454d4423643ce80e2a9ac94fa54ca49f"
    );
    assert_eq!(md5_hex(b"hello world"), "5eb63bbbe01eeed093cb22bb8f5acdc3");
    assert_eq!(md5_hex(b""), "d41d8cd98f00b204e9800998ecf8427e");
}

#[test]
fn hmacs_in_hex() {
    let data = b"The quick brown fox jumps over the lazy dog";
    assert_eq!(
        hmac_sha256_hex(b"key", data).unwrap(),
        "f7bc83f430538424b13298e6aa6fb143ef4d59a14946175997479dbc2d1a3cd8"
    );
    assert_eq!(
        hmac_sha512_hex(b"key", data).unwrap(),
        "b42af09057bac1e2d41708e48a902e09b5ff7f12ab428a4fe86653c73dd248fb82f948a549f7b791a5b41915ee4d1ec3935357e4e2317250d0372afa2ebeeb3a"
    );
    assert!(hmac_sha256_hex(b"", b"").is_ok());
}

#[test]
fn derive_key_is_sha256_of_passphrase() {
    let key = derive_key(b"hello world");
    let mut text = String::new();
    for b in key.iter() {
        text.push_str(&format!("{:02x}", b));
    }
    assert_eq!(text, sha256_hex(b"hello world"));
}

#[test]
fn hex_round_trip_and_errors() {
    assert_eq!(encode_hex_text(b"Hello"), "48656c6c6f");
    assert_eq!(decode_hex_text("48656C6c6f").unwrap(), b"Hello".to_vec());
    assert_eq!(decode_hex_text("").unwrap(), Vec::<u8>::new());
    assert_eq!(
        decode_hex_text("abc").unwrap_err(),
        "crypto.hex_decode: invalid hex: Odd number of digits"
    );
    assert_eq!(
        decode_hex_text("zz").unwrap_err(),
        "crypto.hex_decode: invalid hex: Invalid character 'z' at position 0"
    );
}

#[test]
fn decrypt_inputs_checks_in_order() {
    let (ct, nonce) = decrypt_inputs("0aff", "000102030405060708090a0b").unwrap();
    assert_eq!(ct, vec![0x0a, 0xff]);
    assert_eq!(nonce.len(), 12);
    assert_eq!(
        decrypt_inputs("0", "00").unwrap_err(),
        "crypto.decrypt: invalid ciphertext hex: Odd number of digits"
    );
    assert_eq!(
        decrypt_inputs("00", "0g").unwrap_err(),
        "crypto.decrypt: invalid nonce hex: Invalid character 'g' at position 1"
    );
    assert_eq!(
        decrypt_inputs("00", "0011").unwrap_err(),
        "crypto.decrypt: nonce must be 12 bytes (24 hex chars), got 2 bytes"
    );
}

#[test]
fn jwt_algorithms() {
    assert_eq!(parse_algorithm("HS256").unwrap(), JwtAlgorithm::HS256);
    assert_eq!(parse_algorithm("hs384").unwrap(), JwtAlgorithm::HS384);
    assert_eq!(parse_algorithm("Hs512").unwrap(), JwtAlgorithm::HS512);
    assert_eq!(
        parse_algorithm("rs256").unwrap_err(),
        "crypto.jwt: unsupported algorithm 'RS256'. Supported: HS256, HS384, HS512"
    );
}

#[test]
fn random_bytes_limits() {
    assert_eq!(random_bytes_count(0), None);
    assert_eq!(random_bytes_count(16), Some(Ok(16)));
    assert_eq!(random_bytes_count(1048576), Some(Ok(1048576)));
    assert_eq!(
        random_bytes_count(1048577),
        Some(Err("crypto.random_bytes: n must be <= 1048576 (1 MiB)".to_string()))
    );
}

#[test]
fn hex_texts_round_trip() {
    let data: Vec<u8> = (0u8..=255).collect();
    let text = encode_hex_text(&data);
    assert_eq!(text.len(), 2 * data.len());
    assert!(text.chars().all(|c| c.is_ascii_digit() || ('a'..='f').contains(&c)));
    assert_eq!(decode_hex_text(&text).unwrap(), data);
    assert_eq!(decode_hex_text(&encode_hex_text(b"")).unwrap(), Vec::<u8>::new());
    let digest = sha256_hex(b"any input at all");
    assert_eq!(digest.len(), 64);
    assert!(digest.chars().all(|c| c.is_ascii_digit() || ('a'..='f').contains(&c)));
}
