use vector_tests::error::GenerateError;
use vector_tests::hex::{byte_to_hex, chars_of, hex_digit, hex_to_bytes};
use vector_tests::render::{hexadecimal_to_vec, render_bytes};

fn encoding_error(packed: &str) -> GenerateError {
    GenerateError::Encoding { packed: packed.to_string() }
}

fn reencode(bytes: &[u8]) -> String {
    let mut text = String::new();
    for b in bytes {
        text.push_str(&byte_to_hex(*b));
    }
    text
}

#[test]
fn decodes_pairs_of_digits_in_order() {
    assert_eq!(hex_to_bytes("80038302"), Ok(vec![0x80, 0x03, 0x83, 0x02]));
    assert_eq!(hex_to_bytes("0102"), Ok(vec![1, 2]));
    assert_eq!(hex_to_bytes("00ff"), Ok(vec![0, 255]));
}

#[test]
fn empty_string_gives_no_bytes() {
    assert_eq!(hex_to_bytes(""), Ok(vec![]));
}

#[test]
fn digits_may_be_upper_or_lower_case() {
    assert_eq!(hex_to_bytes("aBcDeF"), Ok(vec![0xab, 0xcd, 0xef]));
    assert_eq!(hex_to_bytes("ABCDEF"), hex_to_bytes("abcdef"));
    assert_eq!(hex_to_bytes("Ff"), Ok(vec![255]));
}

#[test]
fn odd_length_is_an_encoding_error() {
    assert_eq!(hex_to_bytes("1"), Err(encoding_error("1")));
    assert_eq!(hex_to_bytes("012"), Err(encoding_error("012")));
}

#[test]
fn non_hex_character_is_an_encoding_error() {
    assert_eq!(hex_to_bytes("0g"), Err(encoding_error("0g")));
    assert_eq!(hex_to_bytes("g0"), Err(encoding_error("g0")));
    assert_eq!(hex_to_bytes("01 2"), Err(encoding_error("01 2")));
    assert_eq!(hex_to_bytes("0x01"), Err(encoding_error("0x01")));
    assert_eq!(hex_to_bytes("1_"), Err(encoding_error("1_")));
    assert_eq!(hex_to_bytes("-1"), Err(encoding_error("-1")));
    assert_eq!(hex_to_bytes("\u{e9}0"), Err(encoding_error("\u{e9}0")));
    assert_eq!(hex_to_bytes("0102zz"), Err(encoding_error("0102zz")));
}

#[test]
fn length_is_half_the_number_of_digits() {
    for text in ["", "00", "0102", "deadbeef", "00112233445566778899AABBCCDDEEFF"] {
        assert_eq!(hex_to_bytes(text).unwrap().len(), text.len() / 2);
    }
}

#[test]
fn round_trip_gives_the_string_in_lower_case() {
    for text in ["", "00", "80038302", "DEADbeef", "0123456789abcdefABCDEF"] {
        let bytes = hex_to_bytes(text).unwrap();
        assert_eq!(reencode(&bytes), text.to_lowercase());
    }
}

#[test]
fn every_byte_survives_encoding_and_decoding() {
    let all: Vec<u8> = (0..=255).collect();
    assert_eq!(hex_to_bytes(&reencode(&all)), Ok(all));
}

#[test]
fn byte_text_has_two_lower_case_digits() {
    assert_eq!(byte_to_hex(0), "00");
    assert_eq!(byte_to_hex(0x0a), "0a");
    assert_eq!(byte_to_hex(0xa0), "a0");
    assert_eq!(byte_to_hex(0x7f), "7f");
    assert_eq!(byte_to_hex(255), "ff");
}

#[test]
fn digit_values() {
    assert_eq!(hex_digit('0'), Some(0));
    assert_eq!(hex_digit('9'), Some(9));
    assert_eq!(hex_digit('a'), Some(10));
    assert_eq!(hex_digit('f'), Some(15));
    assert_eq!(hex_digit('A'), Some(10));
    assert_eq!(hex_digit('F'), Some(15));
    assert_eq!(hex_digit('g'), None);
    assert_eq!(hex_digit('G'), None);
    assert_eq!(hex_digit('/'), None);
    assert_eq!(hex_digit(':'), None);
    assert_eq!(hex_digit('@'), None);
    assert_eq!(hex_digit('`'), None);
    assert_eq!(hex_digit('\u{ff10}'), None);
}

#[test]
fn byte_text_uses_each_digit() {
    let text: Vec<String> = [0x01, 0x23, 0x45, 0x67, 0x89, 0xab, 0xcd, 0xef].map(byte_to_hex).to_vec();
    assert_eq!(text.concat(), "0123456789abcdef");
}

#[test]
fn characters_of_a_string() {
    assert_eq!(chars_of(""), Vec::<char>::new());
    assert_eq!(chars_of("a\u{e9}z"), vec!['a', '\u{e9}', 'z']);
}

#[test]
fn byte_vector_expression() {
    assert_eq!(hexadecimal_to_vec("80038302"), Ok("vec![0x80, 0x03, 0x83, 0x02]".to_string()));
    assert_eq!(hexadecimal_to_vec("AB"), Ok("vec![0xab]".to_string()));
    assert_eq!(hexadecimal_to_vec(""), Ok("vec![]".to_string()));
    assert_eq!(render_bytes(&[1, 2]), "vec![0x01, 0x02]");
}

#[test]
fn byte_vector_expression_of_a_bad_string() {
    assert_eq!(hexadecimal_to_vec("801"), Err(encoding_error("801")));
    assert_eq!(hexadecimal_to_vec("8x"), Err(encoding_error("8x")));
}
