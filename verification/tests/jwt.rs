use cpsl::jwt::{jwt_decode, jwt_encode, jwt_encode_at};

fn claim(k: &str, v: &str) -> (String, String) {
    (k.to_string(), v.to_string())
}

#[test]
fn encoded_claims_read_back_unchecked() {
    let token = jwt_encode_at("{\"sub\":\"ann\",\"admin\":true}", "s3cret", None, Some(60), 1000).ok().unwrap();
    assert_eq!(token.split('.').count(), 3);
    let claims = jwt_decode(&token, "other", None, Some(false)).ok().unwrap();
    assert_eq!(claims, vec![claim("admin", "true"), claim("exp", "1060"), claim("sub", "\"ann\"")]);
}

#[test]
fn validated_decode_checks_signature_and_expiry() {
    let token = jwt_encode("{\"sub\":\"ann\"}", "s3cret", Some("hs512"), Some(3600)).ok().unwrap();
    let claims = jwt_decode(&token, "s3cret", Some("HS512"), None).ok().unwrap();
    assert_eq!(claims[1], claim("sub", "\"ann\""));
    match jwt_decode(&token, "wrong", Some("HS512"), None) {
        Err(e) => assert!(e.starts_with("crypto.jwt_decode: "), "got: {}", e),
        Ok(_) => panic!("wrong secret accepted"),
    }
    let expired = jwt_encode_at("{\"sub\":\"ann\"}", "s3cret", None, Some(1), 1000).ok().unwrap();
    assert!(jwt_decode(&expired, "s3cret", None, Some(true)).is_err());
}

#[test]
fn encode_reports_bad_inputs() {
    match jwt_encode_at("{}", "k", Some("RS256"), None, 0) {
        Err(e) => assert_eq!(e, "crypto.jwt: unsupported algorithm 'RS256'. Supported: HS256, HS384, HS512"),
        Ok(_) => panic!("RS256 accepted"),
    }
    match jwt_encode_at("[1,2]", "k", None, None, 0) {
        Err(e) => assert_eq!(e, "crypto.jwt_encode: payload must be a table (object)"),
        Ok(_) => panic!("array payload accepted"),
    }
    assert!(jwt_encode_at("{", "k", None, None, 0).is_err());
    match jwt_decode("not a token", "k", None, Some(false)) {
        Err(e) => assert!(e.starts_with("crypto.jwt_decode: "), "got: {}", e),
        Ok(_) => panic!("garbage decoded"),
    }
}

#[test]
fn expiry_wraps_around() {
    let token = jwt_encode_at("{}", "k", None, Some(2), u64::MAX).ok().unwrap();
    let claims = jwt_decode(&token, "k", None, Some(false)).ok().unwrap();
    assert_eq!(claims, vec![claim("exp", "1")]);
}
