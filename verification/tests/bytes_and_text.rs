use rvl::trim::{ascii_trim, is_ascii_blank_slice};
use rvl::missing::is_missing_token;
use rvl::numbers::format_int_with_commas;
use rvl::ident_human::render_identifier_human;
use rvl::ident_json::encode_identifier_json;

#[test]
fn trim_spaces() {
    assert_eq!(ascii_trim(b"  hello  "), b"hello");
}

#[test]
fn trim_tabs() {
    assert_eq!(ascii_trim(b"\thello\t"), b"hello");
}

#[test]
fn trim_mixed() {
    assert_eq!(ascii_trim(b" \t hello \t "), b"hello");
}

#[test]
fn trim_empty() {
    assert_eq!(ascii_trim(b""), b"");
}

#[test]
fn trim_only_blanks() {
    assert_eq!(ascii_trim(b"  \t\t  "), b"");
}

#[test]
fn trim_no_blanks() {
    assert_eq!(ascii_trim(b"hello"), b"hello");
}

#[test]
fn trim_preserves_inner_whitespace() {
    assert_eq!(ascii_trim(b"  hello world  "), b"hello world");
}

#[test]
fn trim_preserves_inner_tabs() {
    assert_eq!(ascii_trim(b"\thello\tworld\t"), b"hello\tworld");
}

#[test]
fn no_unicode_trim() {
    let input = b"\xc2\xa0hello\xc2\xa0";
    assert_eq!(ascii_trim(input), input);
}

#[test]
fn trim_preserves_other_control_chars() {
    assert_eq!(ascii_trim(b"\x01hello\x7f"), b"\x01hello\x7f");
}

#[test]
fn trim_cr_lf_not_stripped() {
    assert_eq!(ascii_trim(b"\r\nhello\r\n"), b"\r\nhello\r\n");
}

#[test]
fn blank_slice_detection() {
    assert!(is_ascii_blank_slice(b""));
    assert!(is_ascii_blank_slice(b"   "));
    assert!(is_ascii_blank_slice(b"\t\t"));
    assert!(is_ascii_blank_slice(b" \t "));
    assert!(!is_ascii_blank_slice(b" x "));
}

#[test]
fn missing_empty_or_blanks() {
    assert!(is_missing_token(b""));
    assert!(is_missing_token(b"   "));
    assert!(is_missing_token(b"\t\t"));
    assert!(is_missing_token(b" \t "));
}

#[test]
fn missing_dash() {
    assert!(is_missing_token(b"-"));
    assert!(is_missing_token(b"  -  "));
}

#[test]
fn missing_case_insensitive_tokens() {
    assert!(is_missing_token(b"NA"));
    assert!(is_missing_token(b"na"));
    assert!(is_missing_token(b"N/A"));
    assert!(is_missing_token(b"n/a"));
    assert!(is_missing_token(b"NULL"));
    assert!(is_missing_token(b"Null"));
    assert!(is_missing_token(b"NAN"));
    assert!(is_missing_token(b"nan"));
    assert!(is_missing_token(b"NONE"));
    assert!(is_missing_token(b"none"));
}

#[test]
fn missing_trim_applies() {
    assert!(is_missing_token(b"  n/a  "));
    assert!(is_missing_token(b"\tNaN\t"));
}

#[test]
fn non_missing_tokens() {
    assert!(!is_missing_token(b"0"));
    assert!(!is_missing_token(b"NA_"));
    assert!(!is_missing_token(b"N/Ax"));
    assert!(!is_missing_token(b"--"));
    assert!(!is_missing_token(b"NULLS"));
}

#[test]
fn non_ascii_trim_not_applied() {
    assert!(!is_missing_token(b"\r"));
    assert!(!is_missing_token(b"\r\n"));
    assert!(!is_missing_token(b"\r\nNA\r\n"));
}

#[test]
fn formats_int_with_commas() {
    assert_eq!(format_int_with_commas(0), b"0");
    assert_eq!(format_int_with_commas(12), b"12");
    assert_eq!(format_int_with_commas(1234), b"1,234");
    assert_eq!(format_int_with_commas(1234567), b"1,234,567");
    assert_eq!(format_int_with_commas(-1234567), b"-1,234,567");
}

#[test]
fn renders_plain_utf8_as_is() {
    assert_eq!(render_identifier_human(b"hello"), b"hello");
    assert_eq!(render_identifier_human("caf\u{e9}".as_bytes()), "caf\u{e9}".as_bytes());
}

#[test]
fn prefixes_ambiguous_utf8() {
    assert_eq!(render_identifier_human(b"u8:col"), b"u8:u8:col");
    assert_eq!(render_identifier_human(b"hex:dead"), b"u8:hex:dead");
}

#[test]
fn renders_ascii_control_as_hex() {
    assert_eq!(render_identifier_human(b"hi\x01"), b"hex:686901");
    assert_eq!(render_identifier_human(b"\x7f"), b"hex:7f");
}

#[test]
fn renders_invalid_utf8_as_hex() {
    assert_eq!(render_identifier_human(&[0xff, 0xfe]), b"hex:fffe");
}

#[test]
fn encodes_valid_utf8_without_controls_as_u8() {
    assert_eq!(encode_identifier_json(b"abc"), b"u8:abc");
    let cent = std::str::from_utf8(b"\xc2\xa2").expect("valid utf-8");
    let mut expected = b"u8:".to_vec();
    expected.extend_from_slice(cent.as_bytes());
    assert_eq!(encode_identifier_json(cent.as_bytes()), expected);
}

#[test]
fn encodes_utf8_with_control_bytes_as_hex() {
    assert_eq!(encode_identifier_json(b"\x00abc"), b"hex:00616263");
    assert_eq!(encode_identifier_json(b"ab\x7f"), b"hex:61627f");
}

#[test]
fn encodes_invalid_utf8_as_hex() {
    assert_eq!(encode_identifier_json(b"\xff\xfe"), b"hex:fffe");
}

#[test]
fn always_prefixes_u8_in_json() {
    assert_eq!(encode_identifier_json(b"u8:foo"), b"u8:u8:foo");
    assert_eq!(encode_identifier_json(b"hex:deadbeef"), b"u8:hex:deadbeef");
}

#[test]
fn parses_accounting_parentheses_grammar() {
    // `($1,234.56)` is numeric and canonicalizes negative; `(abc)` is not
    let canon = rvl::numeric::canonical_numeric(b"($1,234.56)").expect("numeric");
    assert_eq!(canon, b"-1234.56");
    assert!(rvl::numeric::canonical_numeric(b"(abc)").is_none());
    assert_eq!(String::from_utf8(canon).unwrap().parse::<f64>().unwrap(), -1234.56);
}

#[test]
fn trim_mantissa_drops_fraction_zeros() {
    assert_eq!(rvl::numbers::trim_mantissa(b"1.2300"), b"1.23".to_vec());
    assert_eq!(rvl::numbers::trim_mantissa(b"1.000"), b"1".to_vec());
    assert_eq!(rvl::numbers::trim_mantissa(b"42"), b"42".to_vec());
    assert_eq!(rvl::numbers::trim_mantissa(b"10"), b"10".to_vec());
}

#[test]
fn trim_exponent_normalizes_sign_and_zeros() {
    assert_eq!(rvl::numbers::trim_exponent(b"+05"), b"5".to_vec());
    assert_eq!(rvl::numbers::trim_exponent(b"-007"), b"-7".to_vec());
    assert_eq!(rvl::numbers::trim_exponent(b"000"), b"0".to_vec());
    assert_eq!(rvl::numbers::trim_exponent(b"12"), b"12".to_vec());
}

#[test]
fn parse_code_rejects_unknown_names() {
    assert!(rvl::codes::RefusalCode::parse_code("E_NOPE").is_err());
    assert!(rvl::codes::RefusalCode::parse_code("").is_err());
    assert_eq!(
        rvl::codes::RefusalCode::parse_code("E_DIFFUSE"),
        Ok(rvl::codes::RefusalCode::Diffuse)
    );
}
