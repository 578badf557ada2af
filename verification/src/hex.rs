//! Hexadecimal text and the bytes it stands for.

use crate::error::{ErrorModel, GenerateError};
use vstd::prelude::*;

verus! {

/// Whether `c` is one of `0-9`, `a-f`, `A-F`.
pub open spec fn is_hex_digit(c: char) -> bool {
    ('0' <= c && c <= '9') || ('a' <= c && c <= 'f') || ('A' <= c && c <= 'F')
}

/// The value, 0 to 15, of a hexadecimal digit.
pub open spec fn hex_digit_value(c: char) -> int {
    if '0' <= c && c <= '9' {
        c as int - '0' as int
    } else if 'a' <= c && c <= 'f' {
        c as int - 'a' as int + 10
    } else {
        c as int - 'A' as int + 10
    }
}

/// The lower-case digit for a value from 0 to 15.
pub open spec fn hex_digit_char(v: int) -> char {
    seq!['0', '1', '2', '3', '4', '5', '6', '7', '8', '9', 'a', 'b', 'c', 'd', 'e', 'f'][v]
}

/// An even number of hexadecimal digits, in either case.
pub open spec fn is_hex_string(s: Seq<char>) -> bool {
    &&& s.len() % 2 == 0
    &&& forall|i: int| 0 <= i < s.len() ==> is_hex_digit(#[trigger] s[i])
}

/// The byte written by the two digits `hi` and `lo`.
pub open spec fn byte_of_digits(hi: char, lo: char) -> u8 {
    (16 * hex_digit_value(hi) + hex_digit_value(lo)) as u8
}

/// The bytes that a hexadecimal string stands for: one for each pair of
/// digits, in order.
pub open spec fn decode_hex(s: Seq<char>) -> Seq<u8> {
    Seq::new((s.len() / 2) as nat, |i: int| byte_of_digits(s[2 * i], s[2 * i + 1]))
}

/// The hexadecimal text of a byte sequence: two lower-case digits for each
/// byte, in order.
pub open spec fn encode_hex(bytes: Seq<u8>) -> Seq<char> {
    Seq::new(
        2 * bytes.len(),
        |i: int|
            if i % 2 == 0 {
                hex_digit_char(bytes[i / 2] as int / 16)
            } else {
                hex_digit_char(bytes[i / 2] as int % 16)
            },
    )
}

/// The digit `c` in lower case; any other character unchanged.
pub open spec fn lower_hex(c: char) -> char {
    if 'A' <= c && c <= 'F' {
        hex_digit_char(hex_digit_value(c))
    } else {
        c
    }
}

/// The value of a hexadecimal digit, or `None` for any other character.
pub fn hex_digit(c: char) -> (v: Option<u8>)
    ensures
        is_hex_digit(c) ==> v == Some(hex_digit_value(c) as u8),
        !is_hex_digit(c) ==> v is None,
        v is Some ==> v->0 < 16,
{
    if '0' <= c && c <= '9' {
        Some(c as u8 - '0' as u8)
    } else if 'a' <= c && c <= 'f' {
        Some(c as u8 - 'a' as u8 + 10)
    } else if 'A' <= c && c <= 'F' {
        Some(c as u8 - 'A' as u8 + 10)
    } else {
        None
    }
}

/// The characters of a string, in order.
pub fn chars_of(s: &str) -> (v: Vec<char>)
    ensures
        v@ == s@,
{
    let mut v: Vec<char> = Vec::new();
    for c in it: s.chars()
        invariant
            v@ == it.seq().take(it.index()),
    {
        v.push(c);
    }
    v
}

/// The two lower-case digits of a byte.
pub open spec fn byte_hex(b: u8) -> Seq<char> {
    seq![hex_digit_char(b as int / 16), hex_digit_char(b as int % 16)]
}

/// The lower-case digit for a value below 16, as a one-character string.
fn hex_digit_str(v: u8) -> (s: &'static str)
    requires
        v < 16,
    ensures
        s@ == seq![hex_digit_char(v as int)],
{
    proof {
        reveal_strlit("0");
        reveal_strlit("1");
        reveal_strlit("2");
        reveal_strlit("3");
        reveal_strlit("4");
        reveal_strlit("5");
        reveal_strlit("6");
        reveal_strlit("7");
        reveal_strlit("8");
        reveal_strlit("9");
        reveal_strlit("a");
        reveal_strlit("b");
        reveal_strlit("c");
        reveal_strlit("d");
        reveal_strlit("e");
        reveal_strlit("f");
    }
    let s = match v {
        0 => "0",
        1 => "1",
        2 => "2",
        3 => "3",
        4 => "4",
        5 => "5",
        6 => "6",
        7 => "7",
        8 => "8",
        9 => "9",
        10 => "a",
        11 => "b",
        12 => "c",
        13 => "d",
        14 => "e",
        _ => "f",
    };
    assert(s@ =~= seq![hex_digit_char(v as int)]);
    s
}

/// The two lower-case hexadecimal digits of a byte.
pub fn byte_to_hex(b: u8) -> (text: String)
    ensures
        text@ == byte_hex(b),
{
    let mut text = String::from_str(hex_digit_str(b / 16));
    text.append(hex_digit_str(b % 16));
    assert(text@ =~= byte_hex(b));
    text
}

/// Converts a string of hexadecimal digits into the bytes it stands for.
///
/// Succeeds exactly on an even number of hexadecimal digits, upper or lower
/// case; each pair of digits gives one byte, in order. Any other string is
/// an encoding error that carries the string.
pub fn hex_to_bytes(hex: &str) -> (r: Result<Vec<u8>, GenerateError>)
    ensures
        match r {
            Ok(bytes) => is_hex_string(hex@) && bytes@ == decode_hex(hex@) && 2 * bytes@.len()
                == hex@.len(),
            Err(e) => !is_hex_string(hex@) && e@ == (ErrorModel::Encoding { packed: hex@ }),
        },
{
    let digits = chars_of(hex);
    let n = digits.len();
    if n % 2 != 0 {
        return Err(GenerateError::Encoding { packed: String::from_str(hex) });
    }
    let mut bytes: Vec<u8> = Vec::new();
    let mut i: usize = 0;
    while i < n
        invariant
            digits@ == hex@,
            n == digits.len(),
            n % 2 == 0,
            i % 2 == 0,
            i <= n,
            bytes@.len() == i / 2,
            forall|k: int| 0 <= k < i ==> is_hex_digit(#[trigger] digits@[k]),
            forall|k: int|
                0 <= k < bytes@.len() ==> #[trigger] bytes@[k] == byte_of_digits(
                    digits@[2 * k],
                    digits@[2 * k + 1],
                ),
        decreases n - i,
    {
        let hi = hex_digit(digits[i]);
        let lo = hex_digit(digits[i + 1]);
        match (hi, lo) {
            (Some(h), Some(l)) => {
                bytes.push(h * 16 + l);
            },
            _ => {
                assert(!is_hex_digit(hex@[i as int]) || !is_hex_digit(hex@[i + 1]));
                return Err(GenerateError::Encoding { packed: String::from_str(hex) });
            },
        }
        i += 2;
    }
    assert(bytes@ =~= decode_hex(hex@));
    Ok(bytes)
}

/// Round trip: writing the bytes of a hexadecimal string out again, two
/// digits each, gives the string back with its digits in lower case.
pub proof fn lemma_hex_round_trip(h: Seq<char>)
    requires
        is_hex_string(h),
    ensures
        decode_hex(h).len() == h.len() / 2,
        encode_hex(decode_hex(h)) == h.map_values(|c: char| lower_hex(c)),
{
    let bytes = decode_hex(h);
    let back = encode_hex(bytes);
    let lower = h.map_values(|c: char| lower_hex(c));
    assert(back.len() == lower.len());
    assert forall|i: int| 0 <= i < back.len() implies back[i] == lower[i] by {
        let k = i / 2;
        let hi = h[2 * k];
        let lo = h[2 * k + 1];
        assert(is_hex_digit(hi) && is_hex_digit(lo));
        assert(bytes[k] == byte_of_digits(hi, lo));
        let value = 16 * hex_digit_value(hi) + hex_digit_value(lo);
        assert(0 <= hex_digit_value(hi) < 16 && 0 <= hex_digit_value(lo) < 16);
        assert(bytes[k] as int == value);
        assert(value / 16 == hex_digit_value(hi) && value % 16 == hex_digit_value(lo));
        lemma_digit_char_of_value(hi);
        lemma_digit_char_of_value(lo);
    }
    assert(back =~= lower);
}

/// The other way round: the text of any bytes is a hexadecimal string that
/// decodes to those bytes.
pub proof fn lemma_encode_then_decode(bytes: Seq<u8>)
    ensures
        is_hex_string(encode_hex(bytes)),
        decode_hex(encode_hex(bytes)) == bytes,
{
    let text = encode_hex(bytes);
    assert forall|i: int| 0 <= i < text.len() implies is_hex_digit(#[trigger] text[i]) by {
        let b = bytes[i / 2] as int;
        lemma_value_of_digit_char(b / 16);
        lemma_value_of_digit_char(b % 16);
    }
    let back = decode_hex(text);
    assert(back.len() == bytes.len());
    assert forall|k: int| 0 <= k < bytes.len() implies back[k] == bytes[k] by {
        let b = bytes[k] as int;
        assert((2 * k) / 2 == k && (2 * k + 1) / 2 == k);
        assert(text[2 * k] == hex_digit_char(b / 16));
        assert(text[2 * k + 1] == hex_digit_char(b % 16));
        lemma_value_of_digit_char(b / 16);
        lemma_value_of_digit_char(b % 16);
        assert(16 * (b / 16) + b % 16 == b);
    }
    assert(back =~= bytes);
}

/// A digit's value, written as a lower-case digit, is the digit in lower case.
pub proof fn lemma_digit_char_of_value(c: char)
    requires
        is_hex_digit(c),
    ensures
        0 <= hex_digit_value(c) < 16,
        hex_digit_char(hex_digit_value(c)) == lower_hex(c),
        hex_digit_value(lower_hex(c)) == hex_digit_value(c),
{
}

/// The lower-case digit of a value is a hexadecimal digit with that value.
pub proof fn lemma_value_of_digit_char(v: int)
    requires
        0 <= v < 16,
    ensures
        is_hex_digit(hex_digit_char(v)),
        hex_digit_value(hex_digit_char(v)) == v,
{
}

} // verus!
