//! Base64 decoding for the `base64` module of the sandbox.
//!
//! Decoding is lenient about ASCII white space (it is removed first) and reads a
//! `=` anywhere in a group as a zero digit that also shortens the group's output.

use vstd::prelude::*;
use crate::base64_codec::{b64_digit, encode_group, encode_spec};
use crate::text::{push_str_chars, str_chars, string_of};
use vstd::string::StringSliceAdditionalSpecFns;

verus! {

/// The byte of `'='`.
pub open spec fn pad_byte() -> u8 {
    61u8
}

/// The bytes that `u8::is_ascii_whitespace` accepts.
pub open spec fn is_ascii_ws_byte(b: u8) -> bool {
    b == 0x20 || b == 0x09 || b == 0x0a || b == 0x0c || b == 0x0d
}

/// `bytes` without ASCII white space.
pub open spec fn strip_ws(bytes: Seq<u8>) -> Seq<u8>
    decreases bytes.len(),
{
    if bytes.len() == 0 {
        bytes
    } else if is_ascii_ws_byte(bytes.last()) {
        strip_ws(bytes.drop_last())
    } else {
        strip_ws(bytes.drop_last()).push(bytes.last())
    }
}

/// The 6-bit value of a character of the standard Base64 alphabet.
pub open spec fn b64_value(b: u8) -> Option<u8> {
    if 65 <= b <= 90 {
        Some((b - 65) as u8)
    } else if 97 <= b <= 122 {
        Some((b - 97 + 26) as u8)
    } else if 48 <= b <= 57 {
        Some((b - 48 + 52) as u8)
    } else if b == 43 {
        Some(62u8)
    } else if b == 47 {
        Some(63u8)
    } else {
        None
    }
}

/// The error for an input whose length, without white space, is not a multiple of 4.
pub open spec fn length_error() -> Seq<char> {
    "invalid base64: input length is not a multiple of 4"@
}

/// The error for a group of four with more than two `=`.
pub open spec fn padding_error() -> Seq<char> {
    "invalid base64: too much padding"@
}

/// The error for a byte outside the alphabet, shown as the character of that code.
pub open spec fn char_error(b: u8) -> Seq<char> {
    "invalid base64: unexpected character '"@ + seq![b as char] + "'"@
}

/// How many of the four bytes are `=`.
pub open spec fn pad_count(g: Seq<u8>) -> nat {
    (if g[0] == pad_byte() { 1nat } else { 0nat }) + (if g[1] == pad_byte() { 1nat } else { 0nat })
        + (if g[2] == pad_byte() { 1nat } else { 0nat }) + (if g[3] == pad_byte() { 1nat } else { 0nat })
}

/// Whether `b` is neither `=` nor a character of the alphabet.
pub open spec fn is_bad(b: u8) -> bool {
    b != pad_byte() && b64_value(b) is None
}

/// The digit value that a byte contributes (`=` counts as zero).
pub open spec fn group_value(b: u8) -> nat {
    if b == pad_byte() {
        0
    } else {
        b64_value(b)->0 as nat
    }
}

/// Decoding of one group of four bytes.
#[verifier::opaque]
pub open spec fn decode_group(g: Seq<u8>) -> Result<Seq<u8>, Seq<char>>
    recommends
        g.len() == 4,
{
    let pad = pad_count(g);
    if pad > 2 {
        Err(padding_error())
    } else if is_bad(g[0]) {
        Err(char_error(g[0]))
    } else if is_bad(g[1]) {
        Err(char_error(g[1]))
    } else if is_bad(g[2]) {
        Err(char_error(g[2]))
    } else if is_bad(g[3]) {
        Err(char_error(g[3]))
    } else {
        let triple = group_value(g[0]) * 262144 + group_value(g[1]) * 4096 + group_value(g[2]) * 64
            + group_value(g[3]);
        let first = seq![(triple / 65536) as u8];
        let second = if pad < 2 {
            first.push(((triple / 256) % 256) as u8)
        } else {
            first
        };
        Ok(
            if pad < 1 {
                second.push((triple % 256) as u8)
            } else {
                second
            },
        )
    }
}

/// Prepends `o` to a successful result; passes an error on.
pub open spec fn prepend(o: Seq<u8>, r: Result<Seq<u8>, Seq<char>>) -> Result<Seq<u8>, Seq<char>> {
    match r {
        Ok(rest) => Ok(o + rest),
        Err(e) => Err(e),
    }
}

/// Decoding of consecutive groups of four; the first failing group decides the error.
pub open spec fn decode_groups(c: Seq<u8>) -> Result<Seq<u8>, Seq<char>>
    decreases c.len(),
{
    if c.len() < 4 {
        Ok(seq![])
    } else {
        match decode_group(c.take(4)) {
            Err(e) => Err(e),
            Ok(o) => prepend(o, decode_groups(c.skip(4))),
        }
    }
}

/// What `base64_decode` returns for the UTF-8 bytes of its input.
pub open spec fn decode_spec(bytes: Seq<u8>) -> Result<Seq<u8>, Seq<char>> {
    let c = strip_ws(bytes);
    if c.len() == 0 {
        Ok(seq![])
    } else if c.len() % 4 != 0 {
        Err(length_error())
    } else {
        decode_groups(c)
    }
}

/// The value of one character of the standard Base64 alphabet.
pub fn base64_decode_byte(c: u8) -> (r: Result<u8, ()>)
    ensures
        match b64_value(c) {
            Some(v) => r == Ok::<u8, ()>(v),
            None => r is Err,
        },
{
    if 65 <= c && c <= 90 {
        Ok(c - 65)
    } else if 97 <= c && c <= 122 {
        Ok(c - 97 + 26)
    } else if 48 <= c && c <= 57 {
        Ok(c - 48 + 52)
    } else if c == 43 {
        Ok(62)
    } else if c == 47 {
        Ok(63)
    } else {
        Err(())
    }
}

fn strip_whitespace(bytes: &[u8]) -> (r: Vec<u8>)
    ensures
        r@ == strip_ws(bytes@),
{
    let mut out: Vec<u8> = Vec::new();
    let mut i: usize = 0;
    while i < bytes.len()
        invariant
            i <= bytes.len(),
            out@ == strip_ws(bytes@.take(i as int)),
        decreases bytes.len() - i,
    {
        let b = bytes[i];
        assert(bytes@.take(i + 1).drop_last() =~= bytes@.take(i as int));
        if !(b == 0x20 || b == 0x09 || b == 0x0a || b == 0x0c || b == 0x0d) {
            out.push(b);
        }
        i += 1;
    }
    assert(bytes@.take(bytes@.len() as int) =~= bytes@);
    out
}

fn error_string(prefix: &str, b: u8) -> (r: String)
    ensures
        r@ == prefix@ + seq![b as char] + "'"@,
{
    let mut m = str_chars(prefix);
    m.push(b as char);
    push_str_chars(&mut m, "'");
    string_of(&m)
}

fn message(text: &str) -> (r: String)
    ensures
        r@ == text@,
{
    let m = str_chars(text);
    string_of(&m)
}

fn group_digit(b: u8) -> (r: Result<u32, String>)
    ensures
        is_bad(b) ==> (r matches Err(m) && m@ == char_error(b)),
        !is_bad(b) ==> r == Ok::<u32, String>(group_value(b) as u32) && group_value(b) < 64,
{
    if b == 61 {
        Ok(0)
    } else {
        match base64_decode_byte(b) {
            Ok(v) => Ok(v as u32),
            Err(()) => Err(error_string("invalid base64: unexpected character '", b)),
        }
    }
}

fn decode_one(g0: u8, g1: u8, g2: u8, g3: u8, out: &mut Vec<u8>) -> (r: Result<(), String>)
    ensures
        match decode_group(seq![g0, g1, g2, g3]) {
            Ok(o) => r is Ok && final(out)@ == old(out)@ + o,
            Err(e) => r matches Err(m) && m@ == e,
        },
{
    reveal(decode_group);
    let ghost g = seq![g0, g1, g2, g3];
    let pad = (if g0 == 61 { 1u32 } else { 0 }) + (if g1 == 61 { 1u32 } else { 0 }) + (if g2
        == 61 { 1u32 } else { 0 }) + (if g3 == 61 { 1u32 } else { 0 });
    assert(pad == pad_count(g));
    if pad > 2 {
        return Err(message("invalid base64: too much padding"));
    }
    let v0 = match group_digit(g0) {
        Ok(v) => v,
        Err(m) => return Err(m),
    };
    let v1 = match group_digit(g1) {
        Ok(v) => v,
        Err(m) => return Err(m),
    };
    let v2 = match group_digit(g2) {
        Ok(v) => v,
        Err(m) => return Err(m),
    };
    let v3 = match group_digit(g3) {
        Ok(v) => v,
        Err(m) => return Err(m),
    };
    let triple = v0 * 262144 + v1 * 4096 + v2 * 64 + v3;
    out.push((triple / 65536) as u8);
    if pad < 2 {
        out.push(((triple / 256) % 256) as u8);
    }
    if pad < 1 {
        out.push((triple % 256) as u8);
    }
    Ok(())
}

proof fn lemma_prepend_assoc(a: Seq<u8>, b: Seq<u8>, r: Result<Seq<u8>, Seq<char>>)
    ensures
        prepend(a, prepend(b, r)) == prepend(a + b, r),
{
    match r {
        Ok(x) => {
            assert(a + (b + x) =~= (a + b) + x);
        },
        Err(e) => {},
    }
}

/// Decodes Base64 text, ignoring ASCII white space.
pub fn base64_decode(text: &str) -> (r: Result<Vec<u8>, String>)
    ensures
        match decode_spec(text.spec_bytes()) {
            Ok(v) => r matches Ok(w) && w@ == v,
            Err(e) => r matches Err(m) && m@ == e,
        },
{
    let clean = strip_whitespace(text.as_bytes());
    if clean.len() == 0 {
        return Ok(Vec::new());
    }
    if clean.len() % 4 != 0 {
        return Err(message("invalid base64: input length is not a multiple of 4"));
    }
    let mut result: Vec<u8> = Vec::new();
    let mut i: usize = 0;
    assert(clean@.skip(0) =~= clean@);
    assert(prepend(result@, decode_groups(clean@)) == decode_groups(clean@)) by {
        match decode_groups(clean@) {
            Ok(r) => {
                assert(result@ + r =~= r);
            },
            Err(e) => {},
        }
    }
    while i < clean.len()
        invariant
            i <= clean.len(),
            clean@ == strip_ws(text.spec_bytes()),
            clean.len() > 0,
            clean.len() % 4 == 0,
            i % 4 == 0,
            decode_groups(clean@) == prepend(result@, decode_groups(clean@.skip(i as int))),
        decreases clean.len() - i,
    {
        let ghost rest = clean@.skip(i as int);
        let ghost before = result@;
        assert(rest.take(4) =~= seq![clean[i as int], clean[i + 1], clean[i + 2], clean[i + 3]]);
        match decode_one(clean[i], clean[i + 1], clean[i + 2], clean[i + 3], &mut result) {
            Ok(()) => {
                assert(rest.skip(4) =~= clean@.skip(i + 4));
                let ghost o = decode_group(rest.take(4))->Ok_0;
                proof {
                    lemma_prepend_assoc(before, o, decode_groups(rest.skip(4)));
                }
                i += 4;
            },
            Err(m) => {
                assert(decode_groups(rest) == Err::<Seq<u8>, Seq<char>>(m@));
                assert(decode_groups(clean@) == Err::<Seq<u8>, Seq<char>>(m@));
                return Err(m);
            },
        }
    }
    assert(clean@.skip(clean@.len() as int) =~= Seq::<u8>::empty());
    assert(result@ + Seq::<u8>::empty() =~= result@);
    Ok(result)
}

} // verus!

verus! {

/// The bytes of a character sequence whose characters are all ASCII.
pub open spec fn ascii_bytes(s: Seq<char>) -> Seq<u8> {
    s.map_values(|c: char| c as u8)
}

proof fn lemma_digit(v: nat)
    requires
        v < 64,
    ensures
        b64_value(b64_digit(v) as u8) == Some(v as u8),
        b64_digit(v) as u8 != pad_byte(),
        !is_ascii_ws_byte(b64_digit(v) as u8),
        '\0' <= b64_digit(v) <= '\u{7f}',
{
}

proof fn lemma_group(data: Seq<u8>)
    requires
        data.len() > 0,
    ensures
        ({
            let g = ascii_bytes(encode_group(data));
            &&& g.len() == 4
            &&& decode_group(g) == Ok::<Seq<u8>, Seq<char>>(
                if data.len() >= 3 {
                    data.take(3)
                } else {
                    data
                },
            )
            &&& forall|i: int| 0 <= i < 4 ==> !is_ascii_ws_byte(#[trigger] g[i])
            &&& forall|i: int| 0 <= i < 4 ==> '\0' <= #[trigger] encode_group(data)[i] <= '\u{7f}'
        }),
{
    reveal(decode_group);
    let b0 = data[0] as nat;
    let b1 = if data.len() > 1 {
        data[1] as nat
    } else {
        0
    };
    let b2 = if data.len() > 2 {
        data[2] as nat
    } else {
        0
    };
    let v0 = b0 / 4;
    let v1 = (b0 % 4) * 16 + b1 / 16;
    let v2 = (b1 % 16) * 4 + b2 / 64;
    let v3 = b2 % 64;
    assert(v0 < 64 && v1 < 64 && v2 < 64 && v3 < 64) by (nonlinear_arith)
        requires
            b0 < 256,
            b1 < 256,
            b2 < 256,
            v0 == b0 / 4,
            v1 == (b0 % 4) * 16 + b1 / 16,
            v2 == (b1 % 16) * 4 + b2 / 64,
            v3 == b2 % 64,
    ;
    lemma_digit(v0);
    lemma_digit(v1);
    lemma_digit(v2);
    lemma_digit(v3);
    let e = encode_group(data);
    let g = ascii_bytes(e);
    assert(g.len() == 4);
    assert(g[0] == b64_digit(v0) as u8);
    assert(g[1] == b64_digit(v1) as u8);
    assert(g[0] != pad_byte() && g[1] != pad_byte());
    if data.len() >= 3 {
        assert(g[2] == b64_digit(v2) as u8 && g[3] == b64_digit(v3) as u8);
        assert(pad_count(g) == 0);
        let triple = v0 * 262144 + v1 * 4096 + v2 * 64 + v3;
        assert(triple == b0 * 65536 + b1 * 256 + b2 && triple / 65536 == b0 && (triple / 256) % 256
            == b1 && triple % 256 == b2) by (nonlinear_arith)
            requires
                b0 < 256,
                b1 < 256,
                b2 < 256,
                v0 == b0 / 4,
                v1 == (b0 % 4) * 16 + b1 / 16,
                v2 == (b1 % 16) * 4 + b2 / 64,
                v3 == b2 % 64,
                triple == v0 * 262144 + v1 * 4096 + v2 * 64 + v3,
        ;
        assert(decode_group(g)->Ok_0 =~= data.take(3));
    } else if data.len() == 2 {
        assert(g[2] == b64_digit(v2) as u8 && g[3] == pad_byte());
        assert(pad_count(g) == 1);
        let triple = v0 * 262144 + v1 * 4096 + v2 * 64;
        assert(triple / 65536 == b0 && (triple / 256) % 256 == b1) by (nonlinear_arith)
            requires
                b0 < 256,
                b1 < 256,
                v0 == b0 / 4,
                v1 == (b0 % 4) * 16 + b1 / 16,
                v2 == (b1 % 16) * 4,
                triple == v0 * 262144 + v1 * 4096 + v2 * 64,
        ;
        assert(decode_group(g)->Ok_0 =~= data);
    } else {
        assert(g[2] == pad_byte() && g[3] == pad_byte());
        assert(pad_count(g) == 2);
        let triple = v0 * 262144 + v1 * 4096;
        assert(triple / 65536 == b0) by (nonlinear_arith)
            requires
                b0 < 256,
                v0 == b0 / 4,
                v1 == (b0 % 4) * 16,
                triple == v0 * 262144 + v1 * 4096,
        ;
        assert(decode_group(g)->Ok_0 =~= data);
    }
}

proof fn lemma_encode_facts(data: Seq<u8>)
    ensures
        encode_spec(data).len() % 4 == 0,
        encode_spec(data).len() == 0 <==> data.len() == 0,
        forall|i: int|
            0 <= i < encode_spec(data).len() ==> '\0' <= #[trigger] encode_spec(data)[i] <= '\u{7f}',
        forall|i: int|
            0 <= i < encode_spec(data).len() ==> !is_ascii_ws_byte(
                #[trigger] ascii_bytes(encode_spec(data))[i],
            ),
        strip_ws(ascii_bytes(encode_spec(data))) == ascii_bytes(encode_spec(data)),
        decode_groups(ascii_bytes(encode_spec(data))) == Ok::<Seq<u8>, Seq<char>>(data),
    decreases data.len(),
{
    let e = encode_spec(data);
    if data.len() == 0 {
        assert(ascii_bytes(e) =~= Seq::<u8>::empty());
        assert(data =~= Seq::<u8>::empty());
    } else {
        lemma_group(data);
        let grp = encode_group(data);
        let rest = if data.len() <= 3 {
            Seq::<u8>::empty()
        } else {
            data.skip(3)
        };
        lemma_encode_facts(rest);
        let er = encode_spec(rest);
        assert(e =~= grp + er);
        assert(ascii_bytes(e) =~= ascii_bytes(grp) + ascii_bytes(er));
        assert(ascii_bytes(e).take(4) =~= ascii_bytes(grp));
        assert(ascii_bytes(e).skip(4) =~= ascii_bytes(er));
        assert forall|i: int| 0 <= i < e.len() implies '\0' <= #[trigger] e[i] <= '\u{7f}' by {
            if i < 4 {
                assert(e[i] == grp[i]);
            } else {
                assert(e[i] == er[i - 4]);
            }
        }
        assert forall|i: int| 0 <= i < e.len() implies !is_ascii_ws_byte(
            #[trigger] ascii_bytes(e)[i],
        ) by {
            if i < 4 {
                assert(ascii_bytes(e)[i] == ascii_bytes(grp)[i]);
            } else {
                assert(ascii_bytes(e)[i] == ascii_bytes(er)[i - 4]);
            }
        }
        lemma_strip_ws_identity(ascii_bytes(e));
        assert(ascii_bytes(e).len() >= 4);
        assert(decode_groups(ascii_bytes(e)) == prepend(
            if data.len() >= 3 {
                data.take(3)
            } else {
                data
            },
            decode_groups(ascii_bytes(er)),
        ));
        if data.len() <= 3 {
            if data.len() == 3 {
                assert(data.take(3) =~= data);
            }
            assert(ascii_bytes(er) =~= Seq::<u8>::empty());
            assert(decode_groups(ascii_bytes(er)) == Ok::<Seq<u8>, Seq<char>>(Seq::<u8>::empty()));
            assert(data + Seq::<u8>::empty() =~= data);
        } else {
            assert(decode_groups(ascii_bytes(er)) == Ok::<Seq<u8>, Seq<char>>(data.skip(3)));
            assert(data.take(3) + data.skip(3) =~= data);
        }
    }
}

proof fn lemma_strip_ws_identity(b: Seq<u8>)
    requires
        forall|i: int| 0 <= i < b.len() ==> !is_ascii_ws_byte(#[trigger] b[i]),
    ensures
        strip_ws(b) == b,
    decreases b.len(),
{
    if b.len() > 0 {
        lemma_strip_ws_identity(b.drop_last());
        assert(b.drop_last().push(b.last()) =~= b);
    }
}

/// Decoding gives back the bytes that were encoded: for every byte sequence
/// `data` and every string `s` whose characters are the Base64 text of `data`,
/// `base64_decode(s)` returns `data`.
pub proof fn law_decode_encode(data: Seq<u8>, s: &str)
    requires
        s@ == encode_spec(data),
    ensures
        decode_spec(s.spec_bytes()) == Ok::<Seq<u8>, Seq<char>>(data),
{
    lemma_encode_facts(data);
    let e = encode_spec(data);
    assert forall|i: int| 0 <= i < s@.len() implies '\0' <= #[trigger] s@[i] <= '\u{7f}' by {
        assert(s@[i] == e[i]);
    }
    assert(vstd::string::is_ascii(s));
    vstd::string::is_ascii_spec_bytes(s);
    assert(s.spec_bytes() =~= ascii_bytes(e));
    lemma_strip_ws_identity_from_facts(data);
}

proof fn lemma_strip_ws_identity_from_facts(data: Seq<u8>)
    ensures
        strip_ws(ascii_bytes(encode_spec(data))) == ascii_bytes(encode_spec(data)),
{
    lemma_encode_facts(data);
}

/// The Base64 text of `n` bytes has `4 * ceil(n / 3)` characters, all of them
/// from the standard alphabet or `=`.
pub proof fn law_encode_shape(data: Seq<u8>)
    ensures
        encode_spec(data).len() == 4 * ((data.len() + 2) / 3),
        forall|i: int|
            0 <= i < encode_spec(data).len() ==> {
                let c = #[trigger] encode_spec(data)[i];
                c == '=' || exists|v: nat| v < 64 && b64_digit(v) == c
            },
    decreases data.len(),
{
    if data.len() > 0 {
        let rest = if data.len() <= 3 {
            Seq::<u8>::empty()
        } else {
            data.skip(3)
        };
        law_encode_shape(rest);
        let e = encode_spec(data);
        let grp = encode_group(data);
        let er = encode_spec(rest);
        assert(e =~= grp + er);
        let b0 = data[0] as nat;
        let b1 = if data.len() > 1 {
            data[1] as nat
        } else {
            0
        };
        let b2 = if data.len() > 2 {
            data[2] as nat
        } else {
            0
        };
        assert(b0 / 4 < 64 && (b0 % 4) * 16 + b1 / 16 < 64 && (b1 % 16) * 4 + b2 / 64 < 64 && b2 % 64
            < 64) by (nonlinear_arith)
            requires
                b0 < 256,
                b1 < 256,
                b2 < 256,
        ;
        assert forall|i: int| 0 <= i < e.len() implies {
            let c = #[trigger] e[i];
            c == '=' || exists|v: nat| v < 64 && b64_digit(v) == c
        } by {
            if i >= 4 {
                assert(e[i] == er[i - 4]);
            } else if i == 0 {
                assert(b64_digit(b0 / 4) == e[i]);
            } else if i == 1 {
                assert(b64_digit((b0 % 4) * 16 + b1 / 16) == e[i]);
            } else if i == 2 && data.len() > 1 {
                assert(b64_digit((b1 % 16) * 4 + b2 / 64) == e[i]);
            } else if i == 3 && data.len() > 2 {
                assert(b64_digit(b2 % 64) == e[i]);
            }
        }
    }
}

} // verus!
