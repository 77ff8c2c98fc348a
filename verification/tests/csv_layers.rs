use rvl::blank::{is_blank_line, is_blank_record, split_lines, strip_trailing_cr};
use rvl::dialect::{auto_detect, skip_leading_blank_lines, DialectError};
use rvl::input::{guard_input_bytes, has_nul_in_first_8k, strip_utf8_bom, EncodingIssue, NUL_SCAN_LIMIT};
use rvl::parser::EscapeMode;
use rvl::records::{normalize_record, RecordWidthError};
use rvl::sep::{parse_sep_directive, scan_first_non_blank_line, SepScan};

fn record(fields: &[&[u8]]) -> Vec<Vec<u8>> {
    fields.iter().map(|f| f.to_vec()).collect()
}

#[test]
fn utf8_bom_is_stripped() {
    let input = [b"\xef\xbb\xbf".as_slice(), b"abc"].concat();
    let (stripped, had_bom) = strip_utf8_bom(&input);
    assert!(had_bom);
    assert_eq!(stripped, b"abc");
    assert_eq!(guard_input_bytes(&input), Ok(b"abc".as_slice()));
}

#[test]
fn utf16_bom_refused() {
    let input = [b"\xff\xfe".as_slice(), b"a\0"].concat();
    assert_eq!(guard_input_bytes(&input), Err(EncodingIssue::Utf16Or32Bom));
}

#[test]
fn utf32_bom_refused() {
    let input = [b"\x00\x00\xfe\xff".as_slice(), b"abc"].concat();
    assert_eq!(guard_input_bytes(&input), Err(EncodingIssue::Utf16Or32Bom));
}

#[test]
fn nul_in_first_8k_refused() {
    let input = b"ab\0cd";
    assert_eq!(guard_input_bytes(input), Err(EncodingIssue::NulByte));
}

#[test]
fn nul_after_8k_allowed() {
    let mut input = vec![b'a'; NUL_SCAN_LIMIT + 1];
    input[NUL_SCAN_LIMIT] = 0;
    assert!(!has_nul_in_first_8k(&input));
    assert_eq!(guard_input_bytes(&input), Ok(input.as_slice()));
}

#[test]
fn blank_line_detection() {
    assert!(is_blank_line(b""));
    assert!(is_blank_line(b"   "));
    assert!(is_blank_line(b"\t\t"));
    assert!(is_blank_line(b" \t "));
    assert!(!is_blank_line(b" x "));
}

#[test]
fn blank_line_trailing_cr() {
    assert!(is_blank_line(b"\r"));
    assert!(is_blank_line(b" \t\r"));
    assert!(!is_blank_line(b"x\r"));
}

#[test]
fn blank_record_all_empty() {
    assert!(is_blank_record(&record(&[b"", b"  ", b"\t"])));
}

#[test]
fn blank_record_non_blank() {
    assert!(!is_blank_record(&record(&[b"", b"\r", b"  "])));
    assert!(!is_blank_record(&record(&[b"x"])));
}

#[test]
fn parse_sep_valid() {
    assert_eq!(parse_sep_directive(b"sep=,"), Some(b','));
    assert_eq!(parse_sep_directive(b"sep=;"), Some(b';'));
    assert_eq!(parse_sep_directive(b"sep=\t"), Some(b'\t'));
    assert_eq!(parse_sep_directive(b"sep=="), Some(b'='));
}

#[test]
fn parse_sep_invalid() {
    assert_eq!(parse_sep_directive(b"sep="), None);
    assert_eq!(parse_sep_directive(b"sep=, "), None);
    assert_eq!(parse_sep_directive(b" sep=,"), None);
    assert_eq!(parse_sep_directive(b"sep=\""), None);
    assert_eq!(parse_sep_directive(b"sep=\r"), None);
    assert_eq!(parse_sep_directive(b"sep=\n"), None);
    assert_eq!(parse_sep_directive(b"sep=\x80"), None);
    assert_eq!(parse_sep_directive(b"sep=\x00"), None);
}

#[test]
fn strip_trailing_cr_only() {
    assert_eq!(strip_trailing_cr(b"sep=,\r"), b"sep=,");
    assert_eq!(strip_trailing_cr(b"sep=,"), b"sep=,");
    assert_eq!(strip_trailing_cr(b"\r"), b"");
}

#[test]
fn scan_first_non_blank_with_directive() {
    let lines: Vec<Vec<u8>> = vec![b"   ".to_vec(), b"\t\t".to_vec(), b"sep=|".to_vec()];
    assert_eq!(
        scan_first_non_blank_line(&lines),
        SepScan::Directive { delimiter: b'|', line_index: 2 }
    );
}

#[test]
fn scan_first_non_blank_without_directive() {
    let lines: Vec<Vec<u8>> = vec![b"   ".to_vec(), b"sep=\"".to_vec()];
    assert_eq!(
        scan_first_non_blank_line(&lines),
        SepScan::FirstNonBlank { line_index: 1, line: b"sep=\"".to_vec() }
    );
}

#[test]
fn scan_no_lines() {
    let lines: Vec<Vec<u8>> = vec![b"".to_vec()];
    assert_eq!(scan_first_non_blank_line(&lines), SepScan::NoLines);
}

#[test]
fn auto_detects_backslash_escape() {
    let input = b"col1,col2\n\"hello\\\"world\",x\n";
    let dialect = auto_detect(input).expect("should detect");
    assert_eq!(dialect.delimiter, b',');
    assert_eq!(dialect.escape, EscapeMode::Backslash);
}

#[test]
fn auto_detects_ambiguous_when_samples_differ() {
    let input = b"h1,h2;h3\n1,2;3\n";
    let err = auto_detect(input).expect_err("should be ambiguous");
    match err {
        DialectError::Ambiguous { tied } => {
            assert_eq!(tied, vec![b',', b';']);
        }
        other => panic!("unexpected error: {:?}", other),
    }
}

#[test]
fn auto_detect_guard_single_column() {
    let input = b"col\n1\n";
    let err = auto_detect(input).expect_err("should refuse single column");
    match err {
        DialectError::SingleColumn { delimiter } => {
            assert_eq!(delimiter, b',');
        }
        other => panic!("unexpected error: {:?}", other),
    }
}

#[test]
fn skip_leading_blank_lines_works() {
    let input = b"   \n\t\t\r\ncol1,col2\n1,2\n";
    let trimmed = skip_leading_blank_lines(input);
    assert_eq!(trimmed, b"col1,col2\n1,2\n");
}

#[test]
fn pads_short_rows_as_empty() {
    let rec = record(&[b"a", b"b"]);
    let normalized = normalize_record(rec, 4, 1).expect("should normalize");
    assert_eq!(normalized.len(), 4);
    assert_eq!(normalized.field(0), b"a");
    assert_eq!(normalized.field(1), b"b");
    assert_eq!(normalized.field(2), b"");
    assert_eq!(normalized.field(3), b"");
}

#[test]
fn accepts_equal_width_rows() {
    let rec = record(&[b"a", b"b", b"c"]);
    let normalized = normalize_record(rec, 3, 9).expect("should normalize");
    assert_eq!(normalized.len(), 3);
    assert_eq!(normalized.field(2), b"c");
}

#[test]
fn ignores_extra_trailing_empty_fields() {
    let rec = record(&[b"a", b"b", b"", b" \t"]);
    let normalized = normalize_record(rec, 2, 7).expect("should normalize");
    assert_eq!(normalized.len(), 2);
    assert_eq!(normalized.field(1), b"b");
}

#[test]
fn rejects_extra_non_empty_fields() {
    let rec = record(&[b"a", b"b", b"extra"]);
    let err = normalize_record(rec, 2, 42).expect_err("should error");
    assert_eq!(err, RecordWidthError { record_number: 42, first_extra_index: 2 });
}

#[test]
fn split_lines_keeps_trailing_empty() {
    let lines = split_lines(b"a\nb\n");
    assert_eq!(lines, vec![b"a".to_vec(), b"b".to_vec(), b"".to_vec()]);
}
