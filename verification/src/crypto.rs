//! The computations of the `crypto` module: digests and MACs in hexadecimal,
//! hexadecimal decoding, the AES key of a passphrase, the checks of a
//! decryption request and the JWT algorithm names.

use vstd::prelude::*;
use vstd::string::StringSliceAdditionalSpecFns;
use crate::doc::{hex_char, hex_digit, hex_encode, hex_lower, sha256, sha256_digest};
use vstd::utf8::{encode_utf8, is_ascii_chars, is_ascii_chars_encode_utf8};
use crate::text::ascii_upper_seq;
use crate::text::{push_decimal, push_str_chars, str_chars, string_of, to_uppercase, unicode_uppercase, decimal};
use hmac::Mac;
use sha2::Digest;

verus! {

// ── Digests ──────────────────────────────────────────────────────────

/// The SHA-512 digest of a byte sequence.
pub uninterp spec fn sha512(data: Seq<u8>) -> Seq<u8>;

/// The MD5 digest of a byte sequence.
pub uninterp spec fn md5(data: Seq<u8>) -> Seq<u8>;

/// The HMAC-SHA256 tag of `data` under `key`.
pub uninterp spec fn hmac_sha256(key: Seq<u8>, data: Seq<u8>) -> Seq<u8>;

/// The HMAC-SHA512 tag of `data` under `key`.
pub uninterp spec fn hmac_sha512(key: Seq<u8>, data: Seq<u8>) -> Seq<u8>;

/// `Sha512::digest` from the `sha2` crate; the 64-byte digest is named by `sha512`.
#[verifier::external_body]
fn sha512_digest(data: &[u8]) -> (r: Vec<u8>)
    ensures
        r@ == sha512(data@),
        r@.len() == 64,
{
    sha2::Sha512::digest(data).to_vec()
}

/// `Md5::digest` from the `md-5` crate; the 16-byte digest is named by `md5`.
#[verifier::external_body]
fn md5_digest(data: &[u8]) -> (r: Vec<u8>)
    ensures
        r@ == md5(data@),
        r@.len() == 16,
{
    md5::Md5::digest(data).to_vec()
}

/// `Hmac<Sha256>` from the `hmac` crate: the tag of `data` under `key`, named by
/// `hmac_sha256`. HMAC takes keys of any length, so creating the MAC succeeds.
#[verifier::external_body]
fn hmac_sha256_tag(key: &[u8], data: &[u8]) -> (r: Result<Vec<u8>, String>)
    ensures
        r is Ok,
        match r {
            Ok(t) => t@ == hmac_sha256(key@, data@),
            Err(_) => true,
        },
{
    match <hmac::Hmac<sha2::Sha256> as Mac>::new_from_slice(key) {
        Ok(mut mac) => {
            mac.update(data);
            Ok(mac.finalize().into_bytes().to_vec())
        },
        Err(e) => Err(e.to_string()),
    }
}

/// `Hmac<Sha512>` from the `hmac` crate: the tag of `data` under `key`, named by
/// `hmac_sha512`. HMAC takes keys of any length, so creating the MAC succeeds.
#[verifier::external_body]
fn hmac_sha512_tag(key: &[u8], data: &[u8]) -> (r: Result<Vec<u8>, String>)
    ensures
        r is Ok,
        match r {
            Ok(t) => t@ == hmac_sha512(key@, data@),
            Err(_) => true,
        },
{
    match <hmac::Hmac<sha2::Sha512> as Mac>::new_from_slice(key) {
        Ok(mut mac) => {
            mac.update(data);
            Ok(mac.finalize().into_bytes().to_vec())
        },
        Err(e) => Err(e.to_string()),
    }
}

/// The SHA-256 digest of `data` in lowercase hexadecimal (`crypto.sha256`).
pub fn sha256_hex(data: &[u8]) -> (r: String)
    ensures
        r@ == hex_lower(sha256(data@)),
        r@.len() == 64,
        forall|i: int| 0 <= i < r@.len() ==> #[trigger] is_lower_hex_char(r@[i]),
{
    let d = sha256_digest(data);
    proof {
        law_hex_round_trip(d@);
    }
    hex_encode(d.as_slice())
}

/// The SHA-512 digest of `data` in lowercase hexadecimal (`crypto.sha512`).
pub fn sha512_hex(data: &[u8]) -> (r: String)
    ensures
        r@ == hex_lower(sha512(data@)),
{
    let d = sha512_digest(data);
    hex_encode(d.as_slice())
}

/// The MD5 digest of `data` in lowercase hexadecimal (`crypto.md5`).
pub fn md5_hex(data: &[u8]) -> (r: String)
    ensures
        r@ == hex_lower(md5(data@)),
{
    let d = md5_digest(data);
    hex_encode(d.as_slice())
}

/// The HMAC-SHA256 tag of `data` under `key` in lowercase hexadecimal
/// (`crypto.hmac_sha256`).
pub fn hmac_sha256_hex(key: &[u8], data: &[u8]) -> (r: Result<String, String>)
    ensures
        r matches Ok(s) && s@ == hex_lower(hmac_sha256(key@, data@)),
{
    match hmac_sha256_tag(key, data) {
        Ok(t) => Ok(hex_encode(t.as_slice())),
        Err(e) => {
            let mut m = str_chars("crypto.hmac_sha256: ");
            push_str_chars(&mut m, e.as_str());
            Err(string_of(&m))
        },
    }
}

/// The HMAC-SHA512 tag of `data` under `key` in lowercase hexadecimal
/// (`crypto.hmac_sha512`).
pub fn hmac_sha512_hex(key: &[u8], data: &[u8]) -> (r: Result<String, String>)
    ensures
        r matches Ok(s) && s@ == hex_lower(hmac_sha512(key@, data@)),
{
    match hmac_sha512_tag(key, data) {
        Ok(t) => Ok(hex_encode(t.as_slice())),
        Err(e) => {
            let mut m = str_chars("crypto.hmac_sha512: ");
            push_str_chars(&mut m, e.as_str());
            Err(string_of(&m))
        },
    }
}

/// The AES-256 key of a passphrase: its SHA-256 digest.
pub fn derive_key(passphrase: &[u8]) -> (r: [u8; 32])
    ensures
        r@ == sha256(passphrase@),
{
    let d = sha256_digest(passphrase);
    let mut key = [0u8; 32];
    let mut i: usize = 0;
    while i < 32
        invariant
            i <= 32,
            d@.len() == 32,
            forall|j: int| 0 <= j < i ==> key@[j] == d@[j],
        decreases 32 - i,
    {
        key.set(i, d[i]);
        i += 1;
    }
    assert(key@ =~= d@);
    key
}

// ── Hexadecimal ──────────────────────────────────────────────────────

/// `s` in hexadecimal, either case: an even number of hexadecimal digits.
pub open spec fn is_hex_text(s: Seq<u8>) -> bool {
    s.len() % 2 == 0 && forall|i: int| 0 <= i < s.len() ==> hex_digit(s[i]) is Some
}

/// The bytes that a hexadecimal text stands for, two digits each.
pub open spec fn hex_bytes(s: Seq<u8>) -> Seq<u8> {
    Seq::new(s.len() / 2, |i: int| (hex_digit(s[2 * i])->0 * 16 + hex_digit(s[2 * i + 1])->0) as u8)
}

/// The message of the `hex` crate's error for a text that is not hexadecimal
/// (odd length, or the first invalid character and its position).
pub uninterp spec fn hex_error_text(s: Seq<u8>) -> Seq<char>;

/// `hex::decode` from the `hex` crate: the bytes of a hexadecimal text, or the
/// message of its error, named by `hex_error_text`.
#[verifier::external_body]
fn hex_decode(s: &[u8]) -> (r: Result<Vec<u8>, String>)
    ensures
        match r {
            Ok(b) => is_hex_text(s@) && b@ == hex_bytes(s@),
            Err(e) => !is_hex_text(s@) && e@ == hex_error_text(s@),
        },
{
    hex::decode(s).map_err(|e| e.to_string())
}

/// The bytes of a hexadecimal text (`crypto.hex_decode`), or the error.
pub fn decode_hex_text(s: &str) -> (r: Result<Vec<u8>, String>)
    ensures
        match r {
            Ok(b) => is_hex_text(s.spec_bytes()) && b@ == hex_bytes(s.spec_bytes()),
            Err(e) => !is_hex_text(s.spec_bytes()) && e@ == "crypto.hex_decode: invalid hex: "@
                + hex_error_text(s.spec_bytes()),
        },
{
    match hex_decode(s.as_bytes()) {
        Ok(b) => Ok(b),
        Err(e) => {
            let mut m = str_chars("crypto.hex_decode: invalid hex: ");
            push_str_chars(&mut m, e.as_str());
            Err(string_of(&m))
        },
    }
}

/// A lowercase hexadecimal digit.
pub open spec fn is_lower_hex_char(c: char) -> bool {
    ('0' <= c <= '9') || ('a' <= c <= 'f')
}

proof fn lemma_hex_lower_shape(data: Seq<u8>)
    ensures
        hex_lower(data).len() == 2 * data.len(),
        forall|k: int|
            0 <= k < data.len() ==> hex_lower(data)[2 * k] == hex_char((data[k] / 16) as nat)
                && hex_lower(data)[2 * k + 1] == hex_char((data[k] % 16) as nat),
    decreases data.len(),
{
    if data.len() > 0 {
        let rest = data.drop_last();
        lemma_hex_lower_shape(rest);
        assert forall|k: int| 0 <= k < data.len() implies hex_lower(data)[2 * k] == hex_char(
            (data[k] / 16) as nat,
        ) && hex_lower(data)[2 * k + 1] == hex_char((data[k] % 16) as nat) by {
            if k < data.len() - 1 {
                assert(rest[k] == data[k]);
            }
        }
    }
}

proof fn lemma_hex_char_digit(n: nat)
    requires
        n < 16,
    ensures
        is_lower_hex_char(hex_char(n)),
        hex_digit(hex_char(n) as u8) == Some(n),
{
}

/// Hexadecimal encoding writes two lowercase hexadecimal digits per byte, and
/// decoding that text (as `decode_hex_text` reads its bytes) gives the bytes
/// back.
pub proof fn law_hex_round_trip(data: Seq<u8>)
    ensures
        hex_lower(data).len() == 2 * data.len(),
        forall|i: int| 0 <= i < hex_lower(data).len() ==> #[trigger] is_lower_hex_char(hex_lower(data)[i]),
        is_hex_text(encode_utf8(hex_lower(data))),
        hex_bytes(encode_utf8(hex_lower(data))) == data,
{
    let h = hex_lower(data);
    lemma_hex_lower_shape(data);
    assert forall|k: int| 0 <= k < data.len() implies is_lower_hex_char(h[2 * k]) && is_lower_hex_char(
        h[2 * k + 1],
    ) && hex_digit(h[2 * k] as u8) == Some((data[k] / 16) as nat) && hex_digit(h[2 * k + 1] as u8)
        == Some((data[k] % 16) as nat) by {
        lemma_hex_char_digit((data[k] / 16) as nat);
        lemma_hex_char_digit((data[k] % 16) as nat);
    }
    assert forall|i: int| 0 <= i < h.len() implies #[trigger] is_lower_hex_char(h[i]) by {
        let k = i / 2;
        assert((i == 2 * k || i == 2 * k + 1) && 0 <= k < data.len()) by (nonlinear_arith)
            requires
                0 <= i < 2 * data.len(),
                k == i / 2,
        ;
        lemma_hex_char_digit((data[k] / 16) as nat);
        lemma_hex_char_digit((data[k] % 16) as nat);
    }
    assert forall|i: int| 0 <= i < h.len() implies '\0' <= #[trigger] h[i] <= '\u{7f}' by {
        assert(is_lower_hex_char(h[i]));
    }
    assert(is_ascii_chars(h));
    is_ascii_chars_encode_utf8(h);
    let b = encode_utf8(h);
    assert forall|i: int| 0 <= i < b.len() implies hex_digit(b[i]) is Some by {
        let k = i / 2;
        assert((i == 2 * k || i == 2 * k + 1) && 0 <= k < data.len()) by (nonlinear_arith)
            requires
                0 <= i < 2 * data.len(),
                k == i / 2,
        ;
        assert(b[i] == h[i] as u8);
        lemma_hex_char_digit((data[k] / 16) as nat);
        lemma_hex_char_digit((data[k] % 16) as nat);
    }
    assert forall|k: int| 0 <= k < data.len() implies hex_bytes(b)[k] == data[k] by {
        assert(b[2 * k] == h[2 * k] as u8);
        assert(b[2 * k + 1] == h[2 * k + 1] as u8);
        assert((data[k] / 16) * 16 + data[k] % 16 == data[k]);
    }
    assert(hex_bytes(b) =~= data);
}

/// The hexadecimal text of bytes (`crypto.hex_encode`).
pub fn encode_hex_text(data: &[u8]) -> (r: String)
    ensures
        r@ == hex_lower(data@),
{
    hex_encode(data)
}

// ── Decryption requests ──────────────────────────────────────────────

/// What `crypto.decrypt` decrypts: the ciphertext and the 12-byte nonce of
/// their hexadecimal texts, or the error for the first bad one.
pub open spec fn decrypt_inputs_spec(ct: Seq<u8>, nonce: Seq<u8>) -> Result<(Seq<u8>, Seq<u8>), Seq<char>> {
    if !is_hex_text(ct) {
        Err("crypto.decrypt: invalid ciphertext hex: "@ + hex_error_text(ct))
    } else if !is_hex_text(nonce) {
        Err("crypto.decrypt: invalid nonce hex: "@ + hex_error_text(nonce))
    } else if hex_bytes(nonce).len() != 12 {
        Err("crypto.decrypt: nonce must be 12 bytes (24 hex chars), got "@ + decimal(hex_bytes(nonce).len())
            + " bytes"@)
    } else {
        Ok((hex_bytes(ct), hex_bytes(nonce)))
    }
}

/// The ciphertext and nonce of a decryption request, decoded and checked.
pub fn decrypt_inputs(ct_hex: &str, nonce_hex: &str) -> (r: Result<(Vec<u8>, Vec<u8>), String>)
    ensures
        match decrypt_inputs_spec(ct_hex.spec_bytes(), nonce_hex.spec_bytes()) {
            Ok((c, n)) => r matches Ok((rc, rn)) && rc@ == c && rn@ == n,
            Err(e) => r matches Err(m) && m@ == e,
        },
{
    let ct = match hex_decode(ct_hex.as_bytes()) {
        Ok(b) => b,
        Err(e) => {
            let mut m = str_chars("crypto.decrypt: invalid ciphertext hex: ");
            push_str_chars(&mut m, e.as_str());
            return Err(string_of(&m));
        },
    };
    let nonce = match hex_decode(nonce_hex.as_bytes()) {
        Ok(b) => b,
        Err(e) => {
            let mut m = str_chars("crypto.decrypt: invalid nonce hex: ");
            push_str_chars(&mut m, e.as_str());
            return Err(string_of(&m));
        },
    };
    if nonce.len() != 12 {
        let mut m = str_chars("crypto.decrypt: nonce must be 12 bytes (24 hex chars), got ");
        push_decimal(&mut m, nonce.len() as u64);
        push_str_chars(&mut m, " bytes");
        return Err(string_of(&m));
    }
    Ok((ct, nonce))
}

// ── JWT algorithms ───────────────────────────────────────────────────

/// The HMAC algorithms of JSON Web Tokens.
#[derive(Debug, Clone, Copy, PartialEq, Eq, Structural)]
pub enum JwtAlgorithm {
    HS256,
    HS384,
    HS512,
}

/// What `parse_algorithm` returns for a name: the algorithm its upper case
/// names, or the error.
pub open spec fn algorithm_spec(name: Seq<char>) -> Result<JwtAlgorithm, Seq<char>> {
    algorithm_of_upper(unicode_uppercase(name))
}

/// The algorithm an upper-case name stands for, or the error.
pub open spec fn algorithm_of_upper(u: Seq<char>) -> Result<JwtAlgorithm, Seq<char>> {
    if u == "HS256"@ {
        Ok(JwtAlgorithm::HS256)
    } else if u == "HS384"@ {
        Ok(JwtAlgorithm::HS384)
    } else if u == "HS512"@ {
        Ok(JwtAlgorithm::HS512)
    } else {
        Err("crypto.jwt: unsupported algorithm '"@ + u + "'. Supported: HS256, HS384, HS512"@)
    }
}

/// The JWT algorithm of a name, in any case.
pub fn parse_algorithm(s: &str) -> (r: Result<JwtAlgorithm, String>)
    ensures
        match algorithm_spec(s@) {
            Ok(a) => r == Ok::<JwtAlgorithm, String>(a),
            Err(e) => r matches Err(m) && m@ == e,
        },
        is_ascii_chars(s@) ==> match algorithm_of_upper(ascii_upper_seq(s@)) {
            Ok(a) => r == Ok::<JwtAlgorithm, String>(a),
            Err(e) => r matches Err(m) && m@ == e,
        },
{
    let u = to_uppercase(s);
    if crate::text::str_eq(u.as_str(), "HS256") {
        Ok(JwtAlgorithm::HS256)
    } else if crate::text::str_eq(u.as_str(), "HS384") {
        Ok(JwtAlgorithm::HS384)
    } else if crate::text::str_eq(u.as_str(), "HS512") {
        Ok(JwtAlgorithm::HS512)
    } else {
        let mut m = str_chars("crypto.jwt: unsupported algorithm '");
        push_str_chars(&mut m, u.as_str());
        push_str_chars(&mut m, "'. Supported: HS256, HS384, HS512");
        Err(string_of(&m))
    }
}

// ── Random bytes ─────────────────────────────────────────────────────

/// How `crypto.random_bytes` answers a count: `None` for an empty result,
/// `Some(Ok(n))` to draw `n` random bytes, or the error above 1 MiB.
pub fn random_bytes_count(n: usize) -> (r: Option<Result<usize, String>>)
    ensures
        n == 0 ==> r is None,
        0 < n <= 1048576 ==> r == Some(Ok::<usize, String>(n)),
        n > 1048576 ==> (r matches Some(Err(e)) && e@ == "crypto.random_bytes: n must be <= 1048576 (1 MiB)"@),
{
    if n == 0 {
        return None;
    }
    if n > 1024 * 1024 {
        return Some(Err(string_of(&str_chars("crypto.random_bytes: n must be <= 1048576 (1 MiB)"))));
    }
    Some(Ok(n))
}

// ── UUIDs ────────────────────────────────────────────────────────────

/// The hyphenated lowercase text of 16 bytes: 8, 4, 4, 4 and 12 hexadecimal
/// digits.
pub open spec fn uuid_text(b: Seq<u8>) -> Seq<char> {
    let h = hex_lower(b);
    h.subrange(0, 8) + "-"@ + h.subrange(8, 12) + "-"@ + h.subrange(12, 16) + "-"@ + h.subrange(16, 20)
        + "-"@ + h.subrange(20, 32)
}

/// The bytes of a UUID of the given version with the RFC 4122 variant.
pub open spec fn uuid_bytes_of_version(b: Seq<u8>, version: u8) -> bool {
    b.len() == 16 && b[6] / 16 == version && b[8] / 64 == 2
}

/// `Uuid::new_v4` from the `uuid` crate, with its bytes and its text
/// (`to_string`): 16 random bytes with the version nibble 4 and the RFC 4122
/// variant, in the hyphenated lowercase form. Nothing is claimed of the random
/// bits.
#[verifier::external_body]
fn uuid_v4_parts() -> (r: (Vec<u8>, String))
    ensures
        uuid_bytes_of_version(r.0@, 4),
        r.1@ == uuid_text(r.0@),
{
    let u = uuid::Uuid::new_v4();
    (u.as_bytes().to_vec(), u.to_string())
}

/// `Uuid::now_v7` from the `uuid` crate, with its bytes and its text
/// (`to_string`): a time-ordered UUID with the version nibble 7 and the RFC
/// 4122 variant, in the hyphenated lowercase form. Nothing is claimed of the
/// timestamp and random bits.
#[verifier::external_body]
fn uuid_v7_parts() -> (r: (Vec<u8>, String))
    ensures
        uuid_bytes_of_version(r.0@, 7),
        r.1@ == uuid_text(r.0@),
{
    let u = uuid::Uuid::now_v7();
    (u.as_bytes().to_vec(), u.to_string())
}

/// `crypto.uuid`: a random (version 4) UUID in hyphenated lowercase form.
pub fn new_uuid() -> (r: String)
    ensures
        exists|b: Seq<u8>| uuid_bytes_of_version(b, 4) && r@ == uuid_text(b),
{
    let (bytes, text) = uuid_v4_parts();
    assert(uuid_bytes_of_version(bytes@, 4));
    text
}

/// `crypto.uuid_v7`: a time-ordered (version 7) UUID in hyphenated lowercase
/// form.
pub fn new_uuid_v7() -> (r: String)
    ensures
        exists|b: Seq<u8>| uuid_bytes_of_version(b, 7) && r@ == uuid_text(b),
{
    let (bytes, text) = uuid_v7_parts();
    assert(uuid_bytes_of_version(bytes@, 7));
    text
}

} // verus!
