//! Passphrase encryption of the `crypto` module: AES-256-GCM under the
//! SHA-256 digest of the passphrase, with a random 12-byte nonce; the
//! ciphertext and the nonce travel as lowercase hexadecimal text.

use vstd::prelude::*;
use vstd::utf8::{encode_utf8, is_ascii_chars, is_ascii_chars_encode_utf8};
use crate::crypto::{decrypt_inputs, decrypt_inputs_spec, derive_key, hex_bytes, is_hex_text};
use crate::doc::{hex_char, hex_digit, hex_encode, hex_lower, sha256};
use crate::text::{push_str_chars, str_chars, string_of};
use aes_gcm::aead::{Aead, KeyInit};
use aes_gcm::aead::rand_core::RngCore;

verus! {

/// The largest plaintext, in bytes, that AES-GCM encrypts (2^36).
pub open spec fn max_plaintext_len() -> int {
    0x10_0000_0000
}

/// The AES-256-GCM ciphertext (tag appended) of `plaintext` under `key`
/// and `nonce`, with no associated data.
pub uninterp spec fn aes256gcm_seal(key: Seq<u8>, nonce: Seq<u8>, plaintext: Seq<u8>) -> Seq<u8>;

/// The plaintext of an AES-256-GCM ciphertext (tag appended) under `key`
/// and `nonce`, or `None` when the tag does not authenticate it.
pub uninterp spec fn aes256gcm_open(key: Seq<u8>, nonce: Seq<u8>, ciphertext: Seq<u8>) -> Option<Seq<u8>>;

/// `Aead::encrypt` of `Aes256Gcm` from the `aes-gcm` crate: the ciphertext
/// with its 16-byte tag appended, named by `aes256gcm_seal`; decryption under
/// the same key and nonce gives the plaintext back. It fails, with the message
/// `aead::Error`, only for a plaintext longer than 2^36 bytes.
#[verifier::external_body]
fn aes256gcm_encrypt(key: &[u8], nonce: &[u8], plaintext: &[u8]) -> (r: Result<Vec<u8>, String>)
    requires
        key@.len() == 32,
        nonce@.len() == 12,
    ensures
        plaintext@.len() <= max_plaintext_len() <==> r is Ok,
        match r {
            Ok(c) => {
                &&& c@ == aes256gcm_seal(key@, nonce@, plaintext@)
                &&& c@.len() == plaintext@.len() + 16
                &&& aes256gcm_open(key@, nonce@, c@) == Some(plaintext@)
            },
            Err(e) => e@ == "aead::Error"@,
        },
{
    let cipher = aes_gcm::Aes256Gcm::new(aes_gcm::Key::<aes_gcm::Aes256Gcm>::from_slice(key));
    cipher.encrypt(aes_gcm::Nonce::from_slice(nonce), plaintext).map_err(|e| e.to_string())
}

/// `Aead::decrypt` of `Aes256Gcm` from the `aes-gcm` crate: the plaintext of
/// a ciphertext with its tag appended, named by `aes256gcm_open`, or the
/// message `aead::Error` when it does not authenticate.
#[verifier::external_body]
fn aes256gcm_decrypt(key: &[u8], nonce: &[u8], ciphertext: &[u8]) -> (r: Result<Vec<u8>, String>)
    requires
        key@.len() == 32,
        nonce@.len() == 12,
    ensures
        match r {
            Ok(p) => aes256gcm_open(key@, nonce@, ciphertext@) == Some(p@),
            Err(e) => aes256gcm_open(key@, nonce@, ciphertext@) is None && e@ == "aead::Error"@,
        },
{
    let cipher = aes_gcm::Aes256Gcm::new(aes_gcm::Key::<aes_gcm::Aes256Gcm>::from_slice(key));
    cipher.decrypt(aes_gcm::Nonce::from_slice(nonce), ciphertext).map_err(|e| e.to_string())
}

/// `OsRng::fill_bytes` (rand_core, as aes-gcm re-exports it) on a fresh buffer
/// of `n` bytes: `n` bytes from the operating system's generator. Nothing is
/// claimed of their values; the generator panics only when the operating
/// system cannot supply randomness.
#[verifier::external_body]
fn os_random_bytes(n: usize) -> (r: Vec<u8>)
    ensures
        r@.len() == n,
{
    let mut bytes = vec![0u8; n];
    aes_gcm::aead::OsRng.fill_bytes(&mut bytes);
    bytes
}

/// The result of `crypto.encrypt`: the ciphertext and the nonce, in
/// lowercase hexadecimal.
pub struct Sealed {
    pub ciphertext: String,
    pub nonce: String,
}

/// What `crypto.decrypt` gives for the UTF-8 bytes of the ciphertext and nonce
/// texts and a passphrase: the plaintext, or the error.
pub open spec fn decrypt_spec(ct_hex: Seq<u8>, passphrase: Seq<u8>, nonce_hex: Seq<u8>) -> Result<Seq<u8>, Seq<char>> {
    match decrypt_inputs_spec(ct_hex, nonce_hex) {
        Err(e) => Err(e),
        Ok((ct, nonce)) => match aes256gcm_open(sha256(passphrase), nonce, ct) {
            Some(p) => Ok(p),
            None => Err("crypto.decrypt: decryption failed (wrong key or corrupted data): aead::Error"@),
        },
    }
}

/// What `crypto.encrypt` gives for a plaintext, a passphrase and the nonce it
/// drew: the ciphertext and nonce texts, or the error.
pub open spec fn encrypt_spec(plaintext: Seq<u8>, passphrase: Seq<u8>, nonce: Seq<u8>) -> Result<(Seq<char>, Seq<char>), Seq<char>> {
    if plaintext.len() <= max_plaintext_len() {
        Ok((hex_lower(aes256gcm_seal(sha256(passphrase), nonce, plaintext)), hex_lower(nonce)))
    } else {
        Err("crypto.encrypt: aead::Error"@)
    }
}

proof fn lemma_hex_lower_shape(data: Seq<u8>)
    ensures
        hex_lower(data).len() == 2 * data.len(),
        forall|i: int|
            0 <= i < data.len() ==> #[trigger] hex_lower(data)[2 * i] == hex_char((data[i] / 16) as nat)
                && hex_lower(data)[2 * i + 1] == hex_char((data[i] % 16) as nat),
    decreases data.len(),
{
    if data.len() > 0 {
        let d = data.drop_last();
        lemma_hex_lower_shape(d);
        assert forall|i: int| 0 <= i < data.len() implies #[trigger] hex_lower(data)[2 * i] == hex_char(
            (data[i] / 16) as nat,
        ) && hex_lower(data)[2 * i + 1] == hex_char((data[i] % 16) as nat) by {
            if i < d.len() {
                assert(hex_lower(d)[2 * i] == hex_char((d[i] / 16) as nat));
            }
        }
    }
}

proof fn lemma_hex_char_digit(n: nat)
    requires
        n < 16,
    ensures
        '\0' <= hex_char(n) <= '\u{7f}',
        hex_digit(hex_char(n) as u8) == Some(n),
{
}

/// The UTF-8 bytes of the lowercase hexadecimal text of `data` are
/// hexadecimal text that stands for `data`.
proof fn lemma_hex_lower_decodes(data: Seq<u8>)
    ensures
        is_ascii_chars(hex_lower(data)),
        is_hex_text(encode_utf8(hex_lower(data))),
        hex_bytes(encode_utf8(hex_lower(data))) == data,
{
    let h = hex_lower(data);
    lemma_hex_lower_shape(data);
    assert forall|k: int| 0 <= k < h.len() implies '\0' <= #[trigger] h[k] <= '\u{7f}' && hex_digit(
        h[k] as u8,
    ) is Some by {
        let i = k / 2;
        assert(0 <= i < data.len());
        lemma_hex_char_digit((data[i] / 16) as nat);
        lemma_hex_char_digit((data[i] % 16) as nat);
        assert(h[2 * i] == hex_char((data[i] / 16) as nat));
        assert(h[2 * i + 1] == hex_char((data[i] % 16) as nat));
        if k % 2 == 0 {
            assert(k == 2 * i);
        } else {
            assert(k == 2 * i + 1);
        }
    }
    is_ascii_chars_encode_utf8(h);
    let b = encode_utf8(h);
    assert forall|i: int| 0 <= i < b.len() implies hex_digit(#[trigger] b[i]) is Some by {
        assert(b[i] == h[i] as u8);
    }
    assert(b.len() % 2 == 0);
    assert forall|i: int| 0 <= i < data.len() implies #[trigger] hex_bytes(b)[i] == data[i] by {
        lemma_hex_char_digit((data[i] / 16) as nat);
        lemma_hex_char_digit((data[i] % 16) as nat);
        assert(b[2 * i] == h[2 * i] as u8);
        assert(b[2 * i + 1] == h[2 * i + 1] as u8);
        assert(hex_lower(data)[2 * i] == hex_char((data[i] / 16) as nat));
        assert(hex_digit(b[2 * i]) == Some((data[i] / 16) as nat));
        assert(hex_digit(b[2 * i + 1]) == Some((data[i] % 16) as nat));
        assert((data[i] / 16) * 16 + data[i] % 16 == data[i]);
    }
    assert(hex_bytes(b) =~= data);
}

/// Decrypting what encryption produced, with the same passphrase, gives the
/// plaintext back.
proof fn lemma_decrypt_of_sealed(plaintext: Seq<u8>, passphrase: Seq<u8>, nonce: Seq<u8>, ct: Seq<u8>)
    requires
        nonce.len() == 12,
        aes256gcm_open(sha256(passphrase), nonce, ct) == Some(plaintext),
    ensures
        decrypt_spec(encode_utf8(hex_lower(ct)), passphrase, encode_utf8(hex_lower(nonce))) == Ok::<
            Seq<u8>,
            Seq<char>,
        >(plaintext),
{
    lemma_hex_lower_decodes(ct);
    lemma_hex_lower_decodes(nonce);
}

/// `crypto.encrypt` with a given nonce: the ciphertext and nonce texts of
/// `plaintext` under the passphrase's key. What it returns decrypts, with the
/// same passphrase, to the plaintext.
pub fn encrypt_with_nonce(plaintext: &[u8], passphrase: &[u8], nonce: &[u8]) -> (r: Result<Sealed, String>)
    requires
        nonce@.len() == 12,
    ensures
        match encrypt_spec(plaintext@, passphrase@, nonce@) {
            Ok((c, n)) => r matches Ok(s) && s.ciphertext@ == c && s.nonce@ == n,
            Err(e) => r matches Err(m) && m@ == e,
        },
        r matches Ok(s) ==> decrypt_spec(encode_utf8(s.ciphertext@), passphrase@, encode_utf8(s.nonce@))
            == Ok::<Seq<u8>, Seq<char>>(plaintext@),
{
    let key = derive_key(passphrase);
    match aes256gcm_encrypt(&key, nonce, plaintext) {
        Ok(ct) => {
            proof {
                lemma_decrypt_of_sealed(plaintext@, passphrase@, nonce@, ct@);
            }
            Ok(Sealed { ciphertext: hex_encode(ct.as_slice()), nonce: hex_encode(nonce) })
        },
        Err(e) => {
            let mut m = str_chars("crypto.encrypt: ");
            push_str_chars(&mut m, e.as_str());
            proof {
                reveal_strlit("crypto.encrypt: ");
                reveal_strlit("aead::Error");
                reveal_strlit("crypto.encrypt: aead::Error");
                assert(m@ =~= "crypto.encrypt: aead::Error"@);
            }
            Err(string_of(&m))
        },
    }
}

/// `crypto.encrypt`: encrypts `plaintext` under the passphrase's key with a
/// fresh random nonce. Whatever nonce was drawn, the result is the one
/// `encrypt_with_nonce` gives for it, and it decrypts to the plaintext.
pub fn encrypt(plaintext: &[u8], passphrase: &[u8]) -> (r: Result<Sealed, String>)
    ensures
        exists|nonce: Seq<u8>| #![trigger hex_lower(nonce)]
            nonce.len() == 12 && match encrypt_spec(plaintext@, passphrase@, nonce) {
                Ok((c, n)) => r matches Ok(s) && s.ciphertext@ == c && s.nonce@ == n,
                Err(e) => r matches Err(m) && m@ == e,
            },
        r matches Ok(s) ==> decrypt_spec(encode_utf8(s.ciphertext@), passphrase@, encode_utf8(s.nonce@))
            == Ok::<Seq<u8>, Seq<char>>(plaintext@),
{
    let nonce = os_random_bytes(12);
    let r = encrypt_with_nonce(plaintext, passphrase, nonce.as_slice());
    assert(hex_lower(nonce@) == hex_lower(nonce@));
    r
}

/// `crypto.decrypt`: the plaintext of the hexadecimal ciphertext and nonce
/// under the passphrase's key, or the error for a bad text, a bad nonce length
/// or a ciphertext that does not authenticate.
pub fn decrypt(ct_hex: &str, passphrase: &[u8], nonce_hex: &str) -> (r: Result<Vec<u8>, String>)
    ensures
        match decrypt_spec(encode_utf8(ct_hex@), passphrase@, encode_utf8(nonce_hex@)) {
            Ok(p) => r matches Ok(b) && b@ == p,
            Err(e) => r matches Err(m) && m@ == e,
        },
{
    let (ct, nonce) = match decrypt_inputs(ct_hex, nonce_hex) {
        Ok(pair) => pair,
        Err(e) => {
            return Err(e);
        },
    };
    let key = derive_key(passphrase);
    match aes256gcm_decrypt(&key, nonce.as_slice(), ct.as_slice()) {
        Ok(p) => Ok(p),
        Err(e) => {
            let mut m = str_chars("crypto.decrypt: decryption failed (wrong key or corrupted data): ");
            push_str_chars(&mut m, e.as_str());
            proof {
                reveal_strlit("crypto.decrypt: decryption failed (wrong key or corrupted data): ");
                reveal_strlit("aead::Error");
                reveal_strlit("crypto.decrypt: decryption failed (wrong key or corrupted data): aead::Error");
                assert(m@ =~= "crypto.decrypt: decryption failed (wrong key or corrupted data): aead::Error"@);
            }
            Err(string_of(&m))
        },
    }
}

/// `crypto.random_bytes`: `n` random bytes in lowercase hexadecimal; the
/// empty text for zero, and the error above 1 MiB.
pub fn random_bytes_hex(n: usize) -> (r: Result<String, String>)
    ensures
        n == 0 ==> (r matches Ok(s) && s@.len() == 0),
        0 < n <= 1048576 ==> (r matches Ok(s) && exists|b: Seq<u8>| b.len() == n && s@ == hex_lower(b)),
        n > 1048576 ==> (r matches Err(e) && e@ == "crypto.random_bytes: n must be <= 1048576 (1 MiB)"@),
{
    match crate::crypto::random_bytes_count(n) {
        None => Ok(String::new()),
        Some(Err(e)) => Err(e),
        Some(Ok(count)) => {
            let bytes = os_random_bytes(count);
            let s = hex_encode(bytes.as_slice());
            assert(s@ == hex_lower(bytes@));
            Ok(s)
        },
    }
}

} // verus!
