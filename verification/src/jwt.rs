//! JSON Web Tokens of the `crypto` module, signed with HMAC: the claims of
//! `crypto.jwt_encode` (with an optional expiry) and the claims that
//! `crypto.jwt_decode` reads back.

use vstd::prelude::*;
use crate::crypto::{algorithm_spec, parse_algorithm, JwtAlgorithm};
use crate::text::{decimal, push_decimal, push_str_chars, str_chars, string_of};

verus! {

/// A claim: its name and its value as JSON text.
pub type Claim = (String, String);

/// The claims as names and JSON texts.
pub open spec fn claims_view(c: Seq<Claim>) -> Seq<(Seq<char>, Seq<char>)> {
    c.map_values(|e: Claim| (e.0@, e.1@))
}

/// What `serde_json` reads from a text: the members of an object (by name,
/// each value as compact JSON text), `None` for another JSON value, or the
/// error text.
pub uninterp spec fn json_object_members(text: Seq<char>) -> Result<Option<Seq<(Seq<char>, Seq<char>)>>, Seq<char>>;

/// The token that `jsonwebtoken` signs for the claims object built by
/// inserting the claims in order (a later claim replaces an earlier one of
/// the same name), or the error text.
pub uninterp spec fn jwt_signed(alg: JwtAlgorithm, claims: Seq<(Seq<char>, Seq<char>)>, secret: Seq<u8>) -> Result<Seq<char>, Seq<char>>;

/// The claims of a token's payload as `jsonwebtoken` decodes them without
/// any check (by name, values as compact JSON text), or the error text.
pub uninterp spec fn jwt_payload(token: Seq<char>) -> Result<Seq<(Seq<char>, Seq<char>)>, Seq<char>>;

/// Whether the signature of a token checks out under `secret` with the HMAC
/// algorithm `alg`, and its header names that algorithm, as `jsonwebtoken`
/// verifies it.
pub uninterp spec fn jwt_signature_valid(token: Seq<char>, secret: Seq<u8>, alg: JwtAlgorithm) -> bool;

/// `serde_json::from_str` into a `Value` from the `serde_json` crate: the
/// members of an object, in name order, with their values' compact texts
/// (`to_string`); `None` for another value; or the error text. Named by
/// `json_object_members`.
#[verifier::external_body]
fn json_members(text: &str) -> (r: Result<Option<Vec<Claim>>, String>)
    ensures
        match json_object_members(text@) {
            Ok(Some(m)) => r matches Ok(Some(v)) && claims_view(v@) == m,
            Ok(None) => r matches Ok(None),
            Err(e) => r matches Err(t) && t@ == e,
        },
{
    match serde_json::from_str::<serde_json::Value>(text).map_err(|e| e.to_string())? {
        serde_json::Value::Object(m) => Ok(Some(m.into_iter().map(|(k, v)| (k, v.to_string())).collect())),
        _ => Ok(None),
    }
}

/// `jsonwebtoken::encode` with `Header::new(alg)` and
/// `EncodingKey::from_secret`, over the `serde_json` object built by inserting
/// the claims (each value read back from its JSON text) in order: the token,
/// or the error text. Named by `jwt_signed`.
#[verifier::external_body]
fn jwt_sign(alg: JwtAlgorithm, claims: &Vec<Claim>, secret: &[u8]) -> (r: Result<String, String>)
    ensures
        match jwt_signed(alg, claims_view(claims@), secret@) {
            Ok(t) => r matches Ok(s) && s@ == t,
            Err(e) => r matches Err(m) && m@ == e,
        },
{
    let mut map = serde_json::Map::new();
    for (k, v) in claims {
        map.insert(k.clone(), serde_json::from_str(v).map_err(|e| e.to_string())?);
    }
    let algorithm = match alg {
        JwtAlgorithm::HS256 => jsonwebtoken::Algorithm::HS256,
        JwtAlgorithm::HS384 => jsonwebtoken::Algorithm::HS384,
        JwtAlgorithm::HS512 => jsonwebtoken::Algorithm::HS512,
    };
    let key = jsonwebtoken::EncodingKey::from_secret(secret);
    jsonwebtoken::encode(&jsonwebtoken::Header::new(algorithm), &map, &key).map_err(|e| e.to_string())
}

/// `jsonwebtoken::dangerous::insecure_decode` into a map of `serde_json`
/// values: the payload's claims in name order, values as compact JSON text,
/// or the error text. Named by `jwt_payload`.
#[verifier::external_body]
fn jwt_read_unchecked(token: &str) -> (r: Result<Vec<Claim>, String>)
    ensures
        match jwt_payload(token@) {
            Ok(c) => r matches Ok(v) && claims_view(v@) == c,
            Err(e) => r matches Err(m) && m@ == e,
        },
{
    jsonwebtoken::dangerous::insecure_decode::<std::collections::BTreeMap<String, serde_json::Value>>(token)
        .map(|d| d.claims.into_iter().map(|(k, v)| (k, v.to_string())).collect())
        .map_err(|e| e.to_string())
}

/// `jsonwebtoken::decode` with `DecodingKey::from_secret` and
/// `Validation::new(alg)` into a map of `serde_json` values: it succeeds
/// only when the signature checks out under the secret with `alg` (named by
/// `jwt_signature_valid`) and the registered claims (an `exp` in the future
/// among them) do too, and then gives the payload's claims, which are those
/// `jwt_payload` names. Whether the expiry check passes depends on the clock,
/// so nothing more is claimed of the errors.
#[verifier::external_body]
fn jwt_read_checked(token: &str, secret: &[u8], alg: JwtAlgorithm) -> (r: Result<Vec<Claim>, String>)
    ensures
        match r {
            Ok(v) => jwt_payload(token@) matches Ok(c) && c == claims_view(v@),
            Err(_) => true,
        },
        r is Ok ==> jwt_signature_valid(token@, secret@, alg),
{
    let algorithm = match alg {
        JwtAlgorithm::HS256 => jsonwebtoken::Algorithm::HS256,
        JwtAlgorithm::HS384 => jsonwebtoken::Algorithm::HS384,
        JwtAlgorithm::HS512 => jsonwebtoken::Algorithm::HS512,
    };
    let key = jsonwebtoken::DecodingKey::from_secret(secret);
    jsonwebtoken::decode::<std::collections::BTreeMap<String, serde_json::Value>>(token, &key, &jsonwebtoken::Validation::new(algorithm))
        .map(|d| d.claims.into_iter().map(|(k, v)| (k, v.to_string())).collect())
        .map_err(|e| e.to_string())
}

/// `SystemTime::now` from std, as whole seconds since the Unix epoch. Nothing
/// is claimed of the clock.
#[verifier::external_body]
fn unix_now_secs() -> (r: u64) {
    std::time::SystemTime::now().duration_since(std::time::UNIX_EPOCH).unwrap().as_secs()
}

/// `a + b` wrapped around `u64`.
pub open spec fn wrapped_sum(a: u64, b: u64) -> nat {
    if a + b > u64::MAX {
        (a + b - 0x1_0000_0000_0000_0000) as nat
    } else {
        (a + b) as nat
    }
}

/// The algorithm of the options: HS256 unless one is named.
pub open spec fn chosen_algorithm(algorithm: Option<Seq<char>>) -> Result<JwtAlgorithm, Seq<char>> {
    match algorithm {
        None => Ok(JwtAlgorithm::HS256),
        Some(a) => algorithm_spec(a),
    }
}

/// What `crypto.jwt_encode` gives at the time `now`: the token of the
/// payload's members, with an `exp` claim `expires_in` seconds after `now`
/// (the sum wrapping around `u64`) when that is asked; or the error.
pub open spec fn jwt_encode_spec(
    payload_json: Seq<char>,
    secret: Seq<u8>,
    algorithm: Option<Seq<char>>,
    expires_in: Option<u64>,
    now: u64,
) -> Result<Seq<char>, Seq<char>> {
    match chosen_algorithm(algorithm) {
        Err(e) => Err(e),
        Ok(alg) => match json_object_members(payload_json) {
            Err(e) => Err(e),
            Ok(None) => Err("crypto.jwt_encode: payload must be a table (object)"@),
            Ok(Some(members)) => {
                let claims = match expires_in {
                    Some(secs) => members.push(("exp"@, decimal(wrapped_sum(now, secs)))),
                    None => members,
                };
                match jwt_signed(alg, claims, secret) {
                    Ok(t) => Ok(t),
                    Err(e) => Err("crypto.jwt_encode: "@ + e),
                }
            },
        },
    }
}

/// The text of an optional string.
pub open spec fn opt_text(a: Option<&str>) -> Option<Seq<char>> {
    match a {
        Some(s) => Some(s@),
        None => None,
    }
}

/// `crypto.jwt_encode` at the time `now` (seconds since the Unix epoch).
pub fn jwt_encode_at(
    payload_json: &str,
    secret: &str,
    algorithm: Option<&str>,
    expires_in: Option<u64>,
    now: u64,
) -> (r: Result<String, String>)
    ensures
        match jwt_encode_spec(
            payload_json@,
            vstd::utf8::encode_utf8(secret@),
            opt_text(algorithm),
            expires_in,
            now,
        ) {
            Ok(t) => r matches Ok(s) && s@ == t,
            Err(e) => r matches Err(m) && m@ == e,
        },
{
    let alg = match algorithm {
        None => JwtAlgorithm::HS256,
        Some(a) => match parse_algorithm(a) {
            Ok(alg) => alg,
            Err(e) => {
                return Err(e);
            },
        },
    };
    let mut claims = match json_members(payload_json) {
        Err(e) => {
            return Err(e);
        },
        Ok(None) => {
            return Err(string_of(&str_chars("crypto.jwt_encode: payload must be a table (object)")));
        },
        Ok(Some(m)) => m,
    };
    let ghost members = claims_view(claims@);
    if let Some(secs) = expires_in {
        let exp = now.wrapping_add(secs);
        let mut digits: Vec<char> = Vec::new();
        push_decimal(&mut digits, exp);
        claims.push((string_of(&str_chars("exp")), string_of(&digits)));
        assert(claims_view(claims@) =~= members.push(("exp"@, decimal(wrapped_sum(now, secs)))));
    }
    match jwt_sign(alg, &claims, secret.as_bytes()) {
        Ok(t) => Ok(t),
        Err(e) => {
            let mut m = str_chars("crypto.jwt_encode: ");
            push_str_chars(&mut m, e.as_str());
            Err(string_of(&m))
        },
    }
}

/// `crypto.jwt_encode`: the token of the payload (a JSON object text) signed
/// with the secret, with an `exp` claim `expires_in` seconds from now when
/// asked. Whatever the clock read, the result is what `jwt_encode_at` gives
/// for that time.
pub fn jwt_encode(payload_json: &str, secret: &str, algorithm: Option<&str>, expires_in: Option<u64>) -> (r: Result<String, String>)
    ensures
        exists|now: u64|
            match #[trigger] jwt_encode_spec(
                payload_json@,
                vstd::utf8::encode_utf8(secret@),
                opt_text(algorithm),
                expires_in,
                now,
            ) {
                Ok(t) => r matches Ok(s) && s@ == t,
                Err(e) => r matches Err(m) && m@ == e,
            },
{
    let now = unix_now_secs();
    let r = jwt_encode_at(payload_json, secret, algorithm, expires_in, now);
    assert(match jwt_encode_spec(payload_json@, vstd::utf8::encode_utf8(secret@), opt_text(algorithm), expires_in, now) {
        Ok(t) => r matches Ok(s) && s@ == t,
        Err(e) => r matches Err(m) && m@ == e,
    });
    r
}

/// `crypto.jwt_decode`: the claims of a token. With validation (the
/// default) the signature under the secret and the expiry are checked, and
/// the claims returned are the payload's; without it, the payload is read
/// unchecked. Errors carry the function's name.
pub fn jwt_decode(token: &str, secret: &str, algorithm: Option<&str>, validate: Option<bool>) -> (r: Result<Vec<Claim>, String>)
    ensures
        chosen_algorithm(opt_text(algorithm)) matches Err(e) ==> (r matches Err(m) && m@ == e),
        chosen_algorithm(opt_text(algorithm)) is Ok && validate == Some(false) ==> match jwt_payload(token@) {
            Ok(c) => r matches Ok(v) && claims_view(v@) == c,
            Err(e) => r matches Err(m) && m@ == "crypto.jwt_decode: "@ + e,
        },
        r matches Ok(v) ==> jwt_payload(token@) == Ok::<Seq<(Seq<char>, Seq<char>)>, Seq<char>>(claims_view(v@)),
        chosen_algorithm(opt_text(algorithm)) matches Ok(a) ==> (validate != Some(false) && r is Ok
            ==> jwt_signature_valid(token@, vstd::utf8::encode_utf8(secret@), a)),
{
    let alg = match algorithm {
        None => JwtAlgorithm::HS256,
        Some(a) => match parse_algorithm(a) {
            Ok(alg) => alg,
            Err(e) => {
                return Err(e);
            },
        },
    };
    let checked = match validate {
        Some(v) => v,
        None => true,
    };
    let read = if checked {
        jwt_read_checked(token, secret.as_bytes(), alg)
    } else {
        jwt_read_unchecked(token)
    };
    match read {
        Ok(claims) => Ok(claims),
        Err(e) => {
            let mut m = str_chars("crypto.jwt_decode: ");
            push_str_chars(&mut m, e.as_str());
            Err(string_of(&m))
        },
    }
}

} // verus!
