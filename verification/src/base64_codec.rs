//! Dependency-free Base64 encoding (RFC 4648 standard alphabet, with padding).

use vstd::prelude::*;
use crate::text::push_char;

verus! {

/// The character of the standard Base64 alphabet for a 6-bit value.
pub open spec fn b64_digit(v: nat) -> char {
    if v < 26 {
        (v + 65) as char
    } else if v < 52 {
        (v - 26 + 97) as char
    } else if v < 62 {
        (v - 52 + 48) as char
    } else if v == 62 {
        '+'
    } else {
        '/'
    }
}

/// The four characters that encode the group `data[0..3]` (missing bytes read as
/// zero; a group of one or two bytes ends in `=` padding).
pub open spec fn encode_group(data: Seq<u8>) -> Seq<char>
    recommends
        data.len() > 0,
{
    let b0 = data[0] as nat;
    let b1 = if data.len() > 1 {
        data[1] as nat
    } else {
        0
    };
    let b2 = if data.len() > 2 {
        data[2] as nat
    } else {
        0
    };
    seq![
        b64_digit(b0 / 4),
        b64_digit((b0 % 4) * 16 + b1 / 16),
        if data.len() > 1 {
            b64_digit((b1 % 16) * 4 + b2 / 64)
        } else {
            '='
        },
        if data.len() > 2 {
            b64_digit(b2 % 64)
        } else {
            '='
        },
    ]
}

/// The padded Base64 text of `data`: one group of four characters for every
/// three bytes, the last group padded.
pub open spec fn encode_spec(data: Seq<u8>) -> Seq<char>
    decreases data.len(),
{
    if data.len() == 0 {
        seq![]
    } else if data.len() <= 3 {
        encode_group(data)
    } else {
        encode_group(data) + encode_spec(data.skip(3))
    }
}

fn digit(v: u32) -> (c: char)
    requires
        v < 64,
    ensures
        c == b64_digit(v as nat),
{
    if v < 26 {
        ((v + 65) as u8) as char
    } else if v < 52 {
        ((v - 26 + 97) as u8) as char
    } else if v < 62 {
        ((v - 52 + 48) as u8) as char
    } else if v == 62 {
        '+'
    } else {
        '/'
    }
}

/// Encodes bytes as padded standard Base64.
pub fn encode(data: &[u8]) -> (r: String)
    ensures
        r@ == encode_spec(data@),
{
    let mut result = String::new();
    let mut i: usize = 0;
    assert(data@.skip(0) =~= data@);
    assert(result@ + encode_spec(data@) =~= encode_spec(data@));
    while i < data.len()
        invariant
            i <= data.len(),
            encode_spec(data@) == result@ + encode_spec(data@.skip(i as int)),
        decreases data.len() - i,
    {
        let ghost rest = data@.skip(i as int);
        let n = data.len() - i;
        let b0 = data[i] as u32;
        let b1 = if n > 1 {
            data[i + 1] as u32
        } else {
            0
        };
        let b2 = if n > 2 {
            data[i + 2] as u32
        } else {
            0
        };
        let c0 = digit(b0 / 4);
        let c1 = digit((b0 % 4) * 16 + b1 / 16);
        let c2 = if n > 1 {
            digit((b1 % 16) * 4 + b2 / 64)
        } else {
            '='
        };
        let c3 = if n > 2 {
            digit(b2 % 64)
        } else {
            '='
        };
        push_char(&mut result, c0);
        push_char(&mut result, c1);
        push_char(&mut result, c2);
        push_char(&mut result, c3);
        assert(encode_group(rest) =~= seq![c0, c1, c2, c3]);
        if n <= 3 {
            assert(data@.skip(data@.len() as int) =~= Seq::<u8>::empty());
            i = data.len();
        } else {
            assert(rest.skip(3) =~= data@.skip(i + 3));
            i += 3;
        }
    }
    result
}

} // verus!
