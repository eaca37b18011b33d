use cpsl::crypto::{new_uuid, new_uuid_v7};
use cpsl::encryption::{decrypt, encrypt, encrypt_with_nonce, random_bytes_hex};

#[test]
fn decrypt_gives_back_what_encrypt_sealed() {
    let sealed = encrypt(b"attack at dawn", b"passphrase").ok().unwrap();
    assert_eq!(sealed.nonce.len(), 24);
    assert_eq!(sealed.ciphertext.len(), 2 * (14 + 16));
    let plain = decrypt(&sealed.ciphertext, b"passphrase", &sealed.nonce).ok().unwrap();
    assert_eq!(plain, b"attack at dawn".to_vec());
}

#[test]
fn encryption_with_a_fixed_nonce_is_deterministic() {
    let nonce = [7u8; 12];
    let a = encrypt_with_nonce(b"hello", b"key", &nonce).ok().unwrap();
    let b = encrypt_with_nonce(b"hello", b"key", &nonce).ok().unwrap();
    assert_eq!(a.ciphertext, b.ciphertext);
    assert_eq!(a.nonce, "070707070707070707070707");
    assert_ne!(a.ciphertext, "68656c6c6f");
    assert_eq!(decrypt(&a.ciphertext, b"key", &a.nonce).ok().unwrap(), b"hello".to_vec());
}

#[test]
fn decrypt_reports_each_error() {
    let sealed = encrypt(b"secret", b"right").ok().unwrap();
    match decrypt(&sealed.ciphertext, b"wrong", &sealed.nonce) {
        Err(e) => assert_eq!(e, "crypto.decrypt: decryption failed (wrong key or corrupted data): aead::Error"),
        Ok(_) => panic!("wrong key accepted"),
    }
    match decrypt("zz", b"right", &sealed.nonce) {
        Err(e) => assert!(e.starts_with("crypto.decrypt: invalid ciphertext hex: "), "got: {}", e),
        Ok(_) => panic!("bad hex accepted"),
    }
    match decrypt(&sealed.ciphertext, b"right", "0011") {
        Err(e) => assert_eq!(e, "crypto.decrypt: nonce must be 12 bytes (24 hex chars), got 2 bytes"),
        Ok(_) => panic!("short nonce accepted"),
    }
}

#[test]
fn random_bytes_are_hex_of_the_requested_length() {
    assert_eq!(random_bytes_hex(0).ok().unwrap(), "");
    let s = random_bytes_hex(16).ok().unwrap();
    assert_eq!(s.len(), 32);
    assert!(s.chars().all(|c| c.is_ascii_hexdigit() && !c.is_ascii_uppercase()));
    match random_bytes_hex(1048577) {
        Err(e) => assert_eq!(e, "crypto.random_bytes: n must be <= 1048576 (1 MiB)"),
        Ok(_) => panic!("too many bytes accepted"),
    }
}

#[test]
fn uuids_are_hyphenated_with_their_version() {
    let u = new_uuid();
    assert_eq!(u.len(), 36);
    assert_eq!(&u[8..9], "-");
    assert_eq!(&u[14..15], "4");
    assert!(matches!(&u[19..20], "8" | "9" | "a" | "b"));
    let v = new_uuid_v7();
    assert_eq!(v.len(), 36);
    assert_eq!(&v[14..15], "7");
    assert_ne!(u, new_uuid());
}
