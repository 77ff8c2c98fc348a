//! `sep=` directive handling.
//!
//! The directive is honored only when it appears as the first non-blank line
//! (ASCII spaces/tabs only) and matches `sep=<single byte>` exactly (five
//! bytes, no surrounding whitespace). A trailing CR is ignored for CRLF
//! files.

use vstd::prelude::*;

use crate::blank::{is_blank_line, spec_is_blank_line, spec_strip_cr, strip_trailing_cr};
use crate::bytes::views_of;

verus! {

/// Result of scanning the lines of a file for a `sep=` directive.
#[derive(Debug, Clone, PartialEq, Eq)]
pub enum SepScan {
    /// A valid `sep=` directive was found.
    Directive { delimiter: u8, line_index: usize },
    /// The first non-blank line is not a valid `sep=` directive.
    FirstNonBlank { line_index: usize, line: Vec<u8> },
    /// No non-blank lines were found.
    NoLines,
}

/// Valid CSV delimiters are single bytes `0x01..=0x7F` excluding `"`, CR
/// and LF.
pub open spec fn spec_is_valid_delimiter(d: u8) -> bool {
    0x01 <= d && d <= 0x7F && d != 0x22 && d != 0x0D && d != 0x0A
}

/// A line (after CR stripping) that is exactly `sep=X` with X a valid
/// delimiter byte.
pub open spec fn spec_sep_directive(line: Seq<u8>) -> Option<u8> {
    if line.len() == 5 && line[0] == 0x73 && line[1] == 0x65 && line[2] == 0x70 && line[3] == 0x3D
        && spec_is_valid_delimiter(line[4]) {
        Some(line[4])
    } else {
        None
    }
}

/// Returns true when the byte may serve as a CSV delimiter.
pub fn is_valid_delimiter(delimiter: u8) -> (r: bool)
    ensures
        r == spec_is_valid_delimiter(delimiter),
{
    delimiter >= 0x01 && delimiter <= 0x7F && delimiter != 0x22 && delimiter != 0x0D && delimiter
        != 0x0A
}

/// Parse a `sep=` directive line. Returns `Some(delimiter)` if valid.
pub fn parse_sep_directive(line: &[u8]) -> (r: Option<u8>)
    ensures
        r == spec_sep_directive(line@),
{
    if line.len() != 5 {
        return None;
    }
    if line[0] != 0x73 || line[1] != 0x65 || line[2] != 0x70 || line[3] != 0x3D {
        return None;
    }
    let d = line[4];
    if is_valid_delimiter(d) {
        Some(d)
    } else {
        None
    }
}

/// What the scan over a line list must report: the first non-blank line
/// decides, with a valid directive winning over a plain line.
pub open spec fn spec_scan_ok(lines: Seq<Seq<u8>>, r: SepScan) -> bool {
    match r {
        SepScan::Directive { delimiter, line_index } => {
            &&& 0 <= line_index < lines.len()
            &&& forall|j: int| 0 <= j < line_index ==> spec_is_blank_line(#[trigger] lines[j])
            &&& !spec_is_blank_line(lines[line_index as int])
            &&& spec_sep_directive(spec_strip_cr(lines[line_index as int])) == Some(delimiter)
        },
        SepScan::FirstNonBlank { line_index, line } => {
            &&& 0 <= line_index < lines.len()
            &&& forall|j: int| 0 <= j < line_index ==> spec_is_blank_line(#[trigger] lines[j])
            &&& !spec_is_blank_line(lines[line_index as int])
            &&& spec_sep_directive(spec_strip_cr(lines[line_index as int])) is None
            &&& line@ == spec_strip_cr(lines[line_index as int])
        },
        SepScan::NoLines => forall|j: int|
            0 <= j < lines.len() ==> spec_is_blank_line(#[trigger] lines[j]),
    }
}

/// Scan lines (without `\n`, with optional trailing `\r`) and detect a
/// valid `sep=` directive on the first non-blank line.
pub fn scan_first_non_blank_line(lines: &Vec<Vec<u8>>) -> (r: SepScan)
    ensures
        spec_scan_ok(views_of(lines@), r),
{
    let n = lines.len();
    let mut i: usize = 0;
    while i < n
        invariant
            0 <= i <= n,
            n == lines@.len(),
            forall|j: int| 0 <= j < i ==> spec_is_blank_line(#[trigger] views_of(lines@)[j]),
        decreases n - i,
    {
        proof {
            assert(views_of(lines@)[i as int] == lines@[i as int]@);
        }
        let trimmed = strip_trailing_cr(lines[i].as_slice());
        if !is_blank_line(lines[i].as_slice()) {
            match parse_sep_directive(trimmed) {
                Some(delimiter) => {
                    return SepScan::Directive { delimiter, line_index: i };
                },
                None => {
                    return SepScan::FirstNonBlank {
                        line_index: i,
                        line: crate::bytes::to_vec_bytes(trimmed),
                    };
                },
            }
        }
        i = i + 1;
    }
    SepScan::NoLines
}

} // verus!
