use cpsl::base64::{base64_decode, base64_decode_byte};
use cpsl::base64_codec::encode;

fn base64_encode(data: &[u8]) -> String {
    encode(data)
}

#[test]
fn encode_empty() {
    assert_eq!(base64_encode(b""), "");
}

#[test]
fn encode_hello() {
    assert_eq!(base64_encode(b"Hello, World!"), "SGVsbG8sIFdvcmxkIQ==");
}

#[test]
fn encode_one_byte() {
    assert_eq!(base64_encode(b"a"), "YQ==");
}

#[test]
fn encode_two_bytes() {
    assert_eq!(base64_encode(b"ab"), "YWI=");
}

#[test]
fn encode_three_bytes() {
    assert_eq!(base64_encode(b"abc"), "YWJj");
}

#[test]
fn encode_binary() {
    assert_eq!(base64_encode(&[0, 1, 2, 255]), "AAEC/w==");
}

#[test]
fn decode_empty() {
    assert_eq!(base64_decode("").unwrap(), b"");
}

#[test]
fn decode_hello() {
    assert_eq!(
        base64_decode("SGVsbG8sIFdvcmxkIQ==").unwrap(),
        b"Hello, World!"
    );
}

#[test]
fn decode_no_padding() {
    assert_eq!(base64_decode("YWJj").unwrap(), b"abc");
}

#[test]
fn decode_one_pad() {
    assert_eq!(base64_decode("YWI=").unwrap(), b"ab");
}

#[test]
fn decode_two_pad() {
    assert_eq!(base64_decode("YQ==").unwrap(), b"a");
}

#[test]
fn decode_with_whitespace() {
    assert_eq!(base64_decode("SGVs\nbG8=").unwrap(), b"Hello");
}

#[test]
fn decode_invalid_char() {
    assert!(base64_decode("!!!").is_err());
}

#[test]
fn decode_invalid_length() {
    assert!(base64_decode("abc").is_err());
}

#[test]
fn roundtrip() {
    let inputs: &[&[u8]] = &[
        b"",
        b"f",
        b"fo",
        b"foo",
        b"foob",
        b"fooba",
        b"foobar",
        b"Hello, World!",
        &[0, 1, 2, 3, 4, 5, 253, 254, 255],
    ];
    for input in inputs {
        let encoded = base64_encode(input);
        let decoded = base64_decode(&encoded).unwrap();
        assert_eq!(&decoded, input, "roundtrip failed for {:?}", input);
    }
}

#[test]
fn encodes_padding_and_binary_data() {
    assert_eq!(encode(b""), "");
    assert_eq!(encode(b"a"), "YQ==");
    assert_eq!(encode(b"ab"), "YWI=");
    assert_eq!(encode(&[0, 1, 2, 255]), "AAEC/w==");
}

#[test]
fn decode_error_messages() {
    assert_eq!(
        base64_decode("abc").unwrap_err(),
        "invalid base64: input length is not a multiple of 4"
    );
    assert_eq!(
        base64_decode("A===").unwrap_err(),
        "invalid base64: too much padding"
    );
    assert_eq!(
        base64_decode("AB!C").unwrap_err(),
        "invalid base64: unexpected character '!'"
    );
    // The first failing group decides the error.
    assert_eq!(
        base64_decode("A===!!!!").unwrap_err(),
        "invalid base64: too much padding"
    );
}

#[test]
fn decode_lenient_padding_and_whitespace() {
    // '=' inside a group reads as a zero digit and shortens the group.
    assert_eq!(base64_decode("=AAA").unwrap(), vec![0u8, 0]);
    assert_eq!(base64_decode(" Y Q = = \r\n\t").unwrap(), b"a");
}

#[test]
fn decode_byte_values() {
    assert_eq!(base64_decode_byte(b'A'), Ok(0));
    assert_eq!(base64_decode_byte(b'z'), Ok(51));
    assert_eq!(base64_decode_byte(b'0'), Ok(52));
    assert_eq!(base64_decode_byte(b'+'), Ok(62));
    assert_eq!(base64_decode_byte(b'/'), Ok(63));
    assert!(base64_decode_byte(b'=').is_err());
}

#[test]
fn encode_length_law_examples() {
    for n in 0..20usize {
        let data: Vec<u8> = (0..n as u8).collect();
        assert_eq!(encode(&data).len(), 4 * ((n + 2) / 3));
    }
}
