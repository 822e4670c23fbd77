//! Hexadecimal rendering of raw bytes: two digits per byte, no
//! separators, in either letter case.
use vstd::prelude::*;
use vstd::utf8::{
    encode_utf8, decode_utf8, valid_utf8, is_ascii_chars, is_ascii_chars_encode_utf8,
    encode_utf8_valid_utf8, encode_utf8_decode_utf8,
};
use crate::text::utf8_to_string;

verus! {

/// The lowercase hexadecimal digit for a value below sixteen.
pub open spec fn hex_digit_lower(n: u8) -> char {
    if n == 0 {
        '0'
    } else if n == 1 {
        '1'
    } else if n == 2 {
        '2'
    } else if n == 3 {
        '3'
    } else if n == 4 {
        '4'
    } else if n == 5 {
        '5'
    } else if n == 6 {
        '6'
    } else if n == 7 {
        '7'
    } else if n == 8 {
        '8'
    } else if n == 9 {
        '9'
    } else if n == 10 {
        'a'
    } else if n == 11 {
        'b'
    } else if n == 12 {
        'c'
    } else if n == 13 {
        'd'
    } else if n == 14 {
        'e'
    } else {
        'f'
    }
}

/// The uppercase hexadecimal digit for a value below sixteen.
pub open spec fn hex_digit_upper(n: u8) -> char {
    if n < 10 {
        hex_digit_lower(n)
    } else if n == 10 {
        'A'
    } else if n == 11 {
        'B'
    } else if n == 12 {
        'C'
    } else if n == 13 {
        'D'
    } else if n == 14 {
        'E'
    } else {
        'F'
    }
}

/// The lowercase hexadecimal rendering of a byte sequence: for each byte,
/// its high nibble's digit then its low nibble's digit.
pub open spec fn hex_lower(bs: Seq<u8>) -> Seq<char> {
    Seq::new(
        (2 * bs.len()) as nat,
        |k: int|
            if k % 2 == 0 {
                hex_digit_lower((bs[k / 2] / 16) as u8)
            } else {
                hex_digit_lower((bs[k / 2] % 16) as u8)
            },
    )
}

/// The uppercase two-digit hexadecimal rendering of one byte.
pub open spec fn hex_byte_upper(b: u8) -> Seq<char> {
    seq![hex_digit_upper((b / 16) as u8), hex_digit_upper((b % 16) as u8)]
}

fn hex_code_lower(n: u8) -> (r: u8)
    requires
        n < 16,
    ensures
        r == hex_digit_lower(n) as u8,
        r < 128,
{
    if n < 10 {
        48 + n
    } else {
        87 + n
    }
}

fn hex_code_upper(n: u8) -> (r: u8)
    requires
        n < 16,
    ensures
        r == hex_digit_upper(n) as u8,
        r < 128,
{
    if n < 10 {
        48 + n
    } else {
        55 + n
    }
}

/// Renders a byte sequence as lowercase hexadecimal text, two digits per
/// byte, no separators.
pub fn hex_string_lower(bytes: &Vec<u8>) -> (r: String)
    ensures
        r@ == hex_lower(bytes@),
{
    let mut codes: Vec<u8> = Vec::new();
    let mut i: usize = 0;
    while i < bytes.len()
        invariant
            i <= bytes@.len(),
            codes@.len() == 2 * i,
            forall|k: int|
                0 <= k < 2 * i ==> #[trigger] codes@[k] == hex_lower(bytes@)[k] as u8,
        decreases bytes@.len() - i,
    {
        let b: u8 = bytes[i];
        codes.push(hex_code_lower(b / 16));
        codes.push(hex_code_lower(b % 16));
        proof {
            let j = i as int;
            assert((2 * j) % 2 == 0 && (2 * j) / 2 == j) by (nonlinear_arith);
            assert((2 * j + 1) % 2 == 1 && (2 * j + 1) / 2 == j) by (nonlinear_arith);
            assert(hex_lower(bytes@)[2 * j] == hex_digit_lower((bytes@[j] / 16) as u8));
            assert(hex_lower(bytes@)[2 * j + 1] == hex_digit_lower((bytes@[j] % 16) as u8));
        }
        i = i + 1;
    }
    proof {
        let hc = hex_lower(bytes@);
        assert(is_ascii_chars(hc)) by {
            assert forall|k: int| 0 <= k < hc.len() implies '\0' <= #[trigger] hc[k]
                <= '\u{7f}' by {}
        }
        is_ascii_chars_encode_utf8(hc);
        encode_utf8_valid_utf8(hc);
        encode_utf8_decode_utf8(hc);
        assert(encode_utf8(hc) =~= codes@);
    }
    match utf8_to_string(codes) {
        Some(s) => s,
        None => {
            proof {
                assert(false);
            }
            String::new()
        },
    }
}

/// Renders one byte as two uppercase hexadecimal digits.
pub fn hex_byte_string_upper(b: u8) -> (r: String)
    ensures
        r@ == hex_byte_upper(b),
{
    let ghost hc = hex_byte_upper(b);
    let mut codes: Vec<u8> = Vec::new();
    codes.push(hex_code_upper(b / 16));
    codes.push(hex_code_upper(b % 16));
    proof {
        assert(is_ascii_chars(hc)) by {
            assert forall|k: int| 0 <= k < hc.len() implies '\0' <= #[trigger] hc[k]
                <= '\u{7f}' by {}
        }
        is_ascii_chars_encode_utf8(hc);
        encode_utf8_valid_utf8(hc);
        encode_utf8_decode_utf8(hc);
        assert(encode_utf8(hc) =~= codes@);
    }
    match utf8_to_string(codes) {
        Some(s) => s,
        None => {
            proof {
                assert(false);
            }
            String::new()
        },
    }
}

} // verus!
