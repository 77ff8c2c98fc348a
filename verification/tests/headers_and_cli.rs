use rvl::codes::RefusalCode;
use rvl::delimiter::{parse_delimiter_arg, DelimiterError};
use rvl::exit::{exit_code, output_stream, Outcome, OutputMode, OutputStream};
use rvl::headers::{normalize_header_name, normalize_headers};
use rvl::key_parse::{parse_key_identifier, KeyParseError};
use rvl::process::{DomainRefusal, PipelineError, ProcessError};

fn headers(hs: &[&[u8]]) -> Vec<Vec<u8>> {
    hs.iter().map(|h| h.to_vec()).collect()
}

#[test]
fn trims_headers_and_preserves_bytes() {
    let normalized = normalize_headers(&headers(&[b" foo ", b"\tbar\t"])).expect("normalize");
    assert_eq!(normalized, vec![b"foo".to_vec(), b"bar".to_vec()]);
}

#[test]
fn empty_headers_are_numbered() {
    let normalized = normalize_headers(&headers(&[b" ", b""])).expect("normalize");
    assert_eq!(normalized, vec![b"__rvl_col_1".to_vec(), b"__rvl_col_2".to_vec()]);
}

#[test]
fn detects_duplicates_after_trim() {
    let err = normalize_headers(&headers(&[b" foo ", b"foo"])).expect_err("duplicate");
    assert_eq!(err.name, b"foo".to_vec());
    assert_eq!(err.first_index, 1);
    assert_eq!(err.second_index, 2);
}

#[test]
fn case_sensitive_uniqueness() {
    let normalized = normalize_headers(&headers(&[b"Foo", b"foo"])).expect("normalize");
    assert_eq!(normalized, vec![b"Foo".to_vec(), b"foo".to_vec()]);
}

#[test]
fn header_name_idempotent() {
    let once = normalize_header_name(b"  x  ", 1);
    let twice = normalize_header_name(&once, 1);
    assert_eq!(once, twice);
    let empty_once = normalize_header_name(b"   ", 7);
    let empty_twice = normalize_header_name(&empty_once, 7);
    assert_eq!(empty_once, empty_twice);
}

#[test]
fn parses_plain_as_utf8_bytes() {
    assert_eq!(parse_key_identifier("col"), Ok(b"col".to_vec()));
    assert_eq!(parse_key_identifier("u8:col"), Ok(b"col".to_vec()));
}

#[test]
fn parses_hex_identifier() {
    assert_eq!(parse_key_identifier("hex:6162"), Ok(b"ab".to_vec()));
    assert_eq!(parse_key_identifier("hex:4142"), Ok(b"AB".to_vec()));
    assert_eq!(parse_key_identifier("hex:4a6b"), Ok(b"Jk".to_vec()));
}

#[test]
fn rejects_empty() {
    assert_eq!(parse_key_identifier(""), Err(KeyParseError::Empty));
    assert_eq!(parse_key_identifier("hex:"), Err(KeyParseError::InvalidHex));
}

#[test]
fn rejects_invalid_hex() {
    assert_eq!(parse_key_identifier("hex:0"), Err(KeyParseError::OddHexLen));
    assert_eq!(parse_key_identifier("hex:zz"), Err(KeyParseError::InvalidHex));
    assert_eq!(parse_key_identifier("hex:0x"), Err(KeyParseError::InvalidHex));
}

#[test]
fn parses_named_delimiters() {
    assert_eq!(parse_delimiter_arg("comma"), Ok(b','));
    assert_eq!(parse_delimiter_arg("tab"), Ok(b'\t'));
    assert_eq!(parse_delimiter_arg("semicolon"), Ok(b';'));
    assert_eq!(parse_delimiter_arg("pipe"), Ok(b'|'));
    assert_eq!(parse_delimiter_arg("caret"), Ok(b'^'));
}

#[test]
fn parses_named_case_insensitive() {
    assert_eq!(parse_delimiter_arg("COMMA"), Ok(b','));
    assert_eq!(parse_delimiter_arg("TaB"), Ok(b'\t'));
}

#[test]
fn parses_hex_form() {
    assert_eq!(parse_delimiter_arg("0x2c"), Ok(b','));
    assert_eq!(parse_delimiter_arg("0X09"), Ok(b'\t'));
}

#[test]
fn parses_single_ascii_char() {
    assert_eq!(parse_delimiter_arg(","), Ok(b','));
    assert_eq!(parse_delimiter_arg("|"), Ok(b'|'));
}

#[test]
fn delimiter_rejects_invalid_hex() {
    assert_eq!(parse_delimiter_arg("0x2"), Err(DelimiterError::InvalidHex));
    assert_eq!(parse_delimiter_arg("0x2g"), Err(DelimiterError::InvalidHex));
}

#[test]
fn rejects_invalid_bytes() {
    assert_eq!(parse_delimiter_arg("\""), Err(DelimiterError::InvalidByte(b'"')));
    assert_eq!(parse_delimiter_arg("\n"), Err(DelimiterError::InvalidByte(b'\n')));
    assert_eq!(parse_delimiter_arg("0x00"), Err(DelimiterError::InvalidByte(0x00)));
    assert_eq!(parse_delimiter_arg("0x80"), Err(DelimiterError::InvalidByte(0x80)));
    assert_eq!(parse_delimiter_arg("0x0A"), Err(DelimiterError::InvalidByte(0x0A)));
}

#[test]
fn rejects_non_ascii_single_char() {
    assert_eq!(parse_delimiter_arg("\u{a7}"), Err(DelimiterError::NonAscii));
}

#[test]
fn rejects_other_values() {
    assert_eq!(parse_delimiter_arg(""), Err(DelimiterError::Empty));
    assert_eq!(parse_delimiter_arg("::"), Err(DelimiterError::InvalidValue));
}

#[test]
fn exit_codes_match_spec() {
    assert_eq!(exit_code(Outcome::NoRealChange), 0);
    assert_eq!(exit_code(Outcome::RealChange), 1);
    assert_eq!(exit_code(Outcome::Refusal), 2);
}

#[test]
fn json_mode_always_stdout() {
    assert_eq!(output_stream(Outcome::NoRealChange, OutputMode::Json), OutputStream::Stdout);
    assert_eq!(output_stream(Outcome::RealChange, OutputMode::Json), OutputStream::Stdout);
    assert_eq!(output_stream(Outcome::Refusal, OutputMode::Json), OutputStream::Stdout);
}

#[test]
fn human_mode_refusals_to_stderr() {
    assert_eq!(output_stream(Outcome::NoRealChange, OutputMode::Human), OutputStream::Stdout);
    assert_eq!(output_stream(Outcome::RealChange, OutputMode::Human), OutputStream::Stdout);
    assert_eq!(output_stream(Outcome::Refusal, OutputMode::Human), OutputStream::Stderr);
}

#[test]
fn codes_round_trip() {
    let all = [
        RefusalCode::Io,
        RefusalCode::Encoding,
        RefusalCode::CsvParse,
        RefusalCode::Headers,
        RefusalCode::NoKey,
        RefusalCode::KeyEmpty,
        RefusalCode::KeyDup,
        RefusalCode::KeyMismatch,
        RefusalCode::RowCount,
        RefusalCode::NeedKey,
        RefusalCode::Dialect,
        RefusalCode::MixedTypes,
        RefusalCode::NoNumeric,
        RefusalCode::Missingness,
        RefusalCode::Diffuse,
    ];
    for code in all {
        let text = code.as_str();
        let parsed = RefusalCode::parse_code(text).expect("parse");
        assert_eq!(parsed, code);
    }
}

#[test]
fn unknown_code_rejected() {
    assert!(RefusalCode::parse_code("E_NOPE").is_err());
}

#[test]
fn distinguishes_refusal_from_process() {
    let refusal = PipelineError::Refusal(DomainRefusal::new(
        RefusalCode::Dialect,
        b"delimiter ambiguous".to_vec(),
    ));
    let process = PipelineError::Process(ProcessError::new(b"cli error".to_vec()));
    assert!(refusal.is_refusal());
    assert!(!refusal.is_process());
    assert!(process.is_process());
    assert!(!process.is_refusal());
}

#[test]
fn exposes_refusal_and_process_accessors() {
    let refusal = PipelineError::Refusal(DomainRefusal::new(RefusalCode::Io, b"disk".to_vec()));
    let process = PipelineError::Process(ProcessError::new(b"panic".to_vec()));
    assert_eq!(refusal.as_refusal().unwrap().message(), &b"disk".to_vec());
    assert!(refusal.as_process().is_none());
    assert_eq!(process.as_process().unwrap().message(), &b"panic".to_vec());
    assert!(process.as_refusal().is_none());
}

#[test]
fn renders_delimiter_variants() {
    assert_eq!(rvl::human::format_delimiter(b','), b",");
    assert_eq!(rvl::human::format_delimiter(b'\t'), b"TAB");
    assert_eq!(rvl::human::format_delimiter(0x1f), b"0x1F");
    assert_eq!(rvl::human::format_delimiter(b' '), b"0x20");
}
