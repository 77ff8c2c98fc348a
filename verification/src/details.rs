//! Refusal detail payloads and their default next-step guidance.
//!
//! Every refusal carries a kind with its concrete facts (identifiers as
//! raw bytes) plus a remediation line; where a rerun command helps, the
//! guidance spells it out with JSON-form identifiers.

use vstd::prelude::*;
use vstd::string::StringSliceAdditionalSpecFns;

use crate::ident_json::spec_encode_json;

verus! {

/// Which input file a refusal speaks about.
#[derive(Debug, Clone, Copy, PartialEq, Eq, Structural)]
pub enum FileSide {
    Old,
    New,
}

impl FileSide {
    /// The JSON name of the side.
    pub fn as_str(self) -> (r: &'static str)
        ensures
            self == FileSide::Old ==> r.spec_bytes() == "old".spec_bytes(),
            self == FileSide::New ==> r.spec_bytes() == "new".spec_bytes(),
    {
        match self {
            FileSide::Old => "old",
            FileSide::New => "new",
        }
    }
}

/// The two file paths used to phrase rerun commands.
#[derive(Debug, Clone)]
pub struct RerunPaths {
    pub old: Vec<u8>,
    pub new: Vec<u8>,
}

/// The encoding problem found by the input guard.
#[derive(Debug, Clone, Copy, PartialEq, Eq, Structural)]
pub enum EncodingIssue {
    Utf16,
    Utf32,
    NulByte,
}

/// The header problem found during normalization.
#[derive(Debug, Clone, PartialEq, Eq)]
pub enum HeadersIssue {
    MissingHeader,
    Duplicate { name: Vec<u8> },
    ExtraFields { record: u64 },
}

/// How to resolve an ambiguous dialect.
#[derive(Debug, Clone, Copy, PartialEq, Eq, Structural)]
pub enum DialectSuggestion {
    ForceDelimiter(DelimiterHint),
    SepDirective(u8),
}

/// A delimiter by name or by byte.
#[derive(Debug, Clone, Copy, PartialEq, Eq, Structural)]
pub enum DelimiterHint {
    Named(NamedDelimiter),
    Byte(u8),
}

/// The delimiters with CLI names.
#[derive(Debug, Clone, Copy, PartialEq, Eq, Structural)]
pub enum NamedDelimiter {
    Comma,
    Tab,
    Semicolon,
    Pipe,
    Caret,
}

/// The concrete facts of one refusal. Coverage numbers arrive already
/// formatted as percent strings, since their arithmetic is not done here.
#[derive(Debug, Clone)]
pub enum RefusalKind {
    Io { file: FileSide, error: Vec<u8> },
    Encoding { file: FileSide, issue: EncodingIssue },
    CsvParse { file: FileSide, line: Option<u64>, column: Option<u64> },
    Headers { file: FileSide, issue: HeadersIssue },
    NoKey { key_column: Vec<u8> },
    KeyEmpty { file: FileSide, record: u64, key_column: Vec<u8> },
    KeyDup { file: FileSide, record: u64, key_value: Vec<u8> },
    KeyMismatch {
        missing_in_new: usize,
        extra_in_new: usize,
        missing_samples: Vec<Vec<u8>>,
        extra_samples: Vec<Vec<u8>>,
    },
    RowCount { rows_old: u64, rows_new: u64, suggested_keys: Vec<Vec<u8>> },
    NeedKey { suggested_keys: Vec<Vec<u8>> },
    Dialect { file: FileSide, tied_delimiters: Vec<u8>, suggestion: DialectSuggestion },
    MixedTypes {
        file: FileSide,
        record: u64,
        column: Vec<u8>,
        value: Vec<u8>,
        key_value: Option<Vec<u8>>,
    },
    NoNumeric,
    Missingness {
        file: FileSide,
        record: u64,
        column: Vec<u8>,
        value: Vec<u8>,
        key_value: Option<Vec<u8>>,
    },
    Diffuse { top_k_coverage_pct: Vec<u8>, threshold_pct: Vec<u8> },
}

/// A refusal's facts together with its next-step guidance.
#[derive(Debug, Clone)]
pub struct RefusalDetail {
    pub kind: RefusalKind,
    pub next: Vec<u8>,
}

/// The rerun command `rvl <old> <new> --key <ident>`.
pub open spec fn spec_key_rerun(paths: RerunPaths, key: Seq<u8>) -> Seq<u8> {
    "rvl ".spec_bytes() + paths.old@ + " ".spec_bytes() + paths.new@ + " --key ".spec_bytes()
        + spec_encode_json(key)
}

/// The CLI spelling of a delimiter hint.
pub open spec fn spec_hint_bytes(hint: DelimiterHint) -> Seq<u8> {
    match hint {
        DelimiterHint::Named(NamedDelimiter::Comma) => "comma".spec_bytes(),
        DelimiterHint::Named(NamedDelimiter::Tab) => "tab".spec_bytes(),
        DelimiterHint::Named(NamedDelimiter::Semicolon) => "semicolon".spec_bytes(),
        DelimiterHint::Named(NamedDelimiter::Pipe) => "pipe".spec_bytes(),
        DelimiterHint::Named(NamedDelimiter::Caret) => "caret".spec_bytes(),
        DelimiterHint::Byte(b) => "0x".spec_bytes() + seq![
            spec_upper_hex(b / 16),
            spec_upper_hex(b % 16),
        ],
    }
}

/// An upper-case hex digit.
pub open spec fn spec_upper_hex(n: u8) -> u8 {
    if n < 10 {
        (0x30 + n) as u8
    } else {
        (0x41 + (n - 10)) as u8
    }
}

/// A byte is printable ASCII.
pub open spec fn spec_visible_ascii(b: u8) -> bool {
    0x21 <= b <= 0x7E
}

/// The default next-step guidance of each refusal kind.
pub open spec fn spec_default_next(kind: RefusalKind, paths: RerunPaths) -> Seq<u8> {
    match kind {
        RefusalKind::Io { .. } => "check file paths/permissions and rerun".spec_bytes(),
        RefusalKind::Encoding { .. } => "convert/re-export both files as UTF-8 CSV and rerun"
            .spec_bytes(),
        RefusalKind::CsvParse { .. } => "re-export as standard CSV (RFC4180 quoting) and rerun"
            .spec_bytes(),
        RefusalKind::Headers { issue, .. } => match issue {
            HeadersIssue::MissingHeader => "ensure the file has a header row and rerun"
                .spec_bytes(),
            HeadersIssue::Duplicate { .. } => "make header names unique and rerun".spec_bytes(),
            HeadersIssue::ExtraFields { .. } =>
                "remove extra columns or re-export with consistent headers, then rerun"
                .spec_bytes(),
        },
        RefusalKind::NoKey { key_column } => spec_key_rerun(paths, key_column@),
        RefusalKind::KeyEmpty { .. } =>
            "choose a key column with no empty values (or fill missing keys), then rerun"
            .spec_bytes(),
        RefusalKind::KeyDup { .. } => "choose a unique key column or dedupe the data, then rerun"
            .spec_bytes(),
        RefusalKind::KeyMismatch { .. } => "export comparable scopes or fix the join key, then rerun"
            .spec_bytes(),
        RefusalKind::RowCount { suggested_keys, .. } => {
            if suggested_keys@.len() > 0 {
                spec_key_rerun(paths, suggested_keys@[0]@)
                    + " to get a missing/extra-keys report (or export comparable scopes)"
                    .spec_bytes()
            } else {
                "export comparable scopes or rerun with --key <column>".spec_bytes()
            }
        },
        RefusalKind::NeedKey { suggested_keys } => {
            if suggested_keys@.len() > 0 {
                spec_key_rerun(paths, suggested_keys@[0]@)
            } else {
                "rerun with --key <column>".spec_bytes()
            }
        },
        RefusalKind::Dialect { file, suggestion, .. } => match suggestion {
            DialectSuggestion::ForceDelimiter(hint) => "rvl ".spec_bytes() + paths.old@
                + " ".spec_bytes() + paths.new@ + " --delimiter ".spec_bytes() + spec_hint_bytes(
                hint,
            ),
            DialectSuggestion::SepDirective(d) => {
                if spec_visible_ascii(d) && d != 0x22 {
                    "add `sep=".spec_bytes() + seq![d]
                        + "` as the first non-blank line of the ".spec_bytes() + (match file {
                        FileSide::Old => "old".spec_bytes(),
                        FileSide::New => "new".spec_bytes(),
                    }) + " file (no whitespace), then rerun".spec_bytes()
                } else {
                    "rvl ".spec_bytes() + paths.old@ + " ".spec_bytes() + paths.new@
                        + " --delimiter ".spec_bytes() + spec_hint_bytes(DelimiterHint::Byte(d))
                }
            },
        },
        RefusalKind::MixedTypes { .. } =>
            "normalize column values to numeric (or exclude the column) and rerun".spec_bytes(),
        RefusalKind::NoNumeric => "ensure common numeric columns exist (or adjust inputs) and rerun"
            .spec_bytes(),
        RefusalKind::Missingness { .. } => "fill missing values or remove the column, then rerun"
            .spec_bytes(),
        RefusalKind::Diffuse { .. } => "rvl ".spec_bytes() + paths.old@ + " ".spec_bytes()
            + paths.new@ + " --threshold 0.80".spec_bytes(),
    }
}

fn push_upper_hex_byte(out: &mut Vec<u8>, b: u8)
    ensures
        final(out)@ == old(out)@ + seq![spec_upper_hex(b / 16), spec_upper_hex(b % 16)],
{
    let hi = b / 16;
    let lo = b % 16;
    out.push(
        if hi < 10 {
            0x30 + hi
        } else {
            0x41 + (hi - 10)
        },
    );
    out.push(
        if lo < 10 {
            0x30 + lo
        } else {
            0x41 + (lo - 10)
        },
    );
    proof {
        assert(out@ =~= old(out)@ + seq![spec_upper_hex(b / 16), spec_upper_hex(b % 16)]);
    }
}

/// Append the CLI spelling of a delimiter hint.
pub fn push_hint(out: &mut Vec<u8>, hint: DelimiterHint)
    ensures
        final(out)@ == old(out)@ + spec_hint_bytes(hint),
{
    match hint {
        DelimiterHint::Named(NamedDelimiter::Comma) => crate::bytes::push_str_bytes(out, "comma"),
        DelimiterHint::Named(NamedDelimiter::Tab) => crate::bytes::push_str_bytes(out, "tab"),
        DelimiterHint::Named(NamedDelimiter::Semicolon) => crate::bytes::push_str_bytes(
            out,
            "semicolon",
        ),
        DelimiterHint::Named(NamedDelimiter::Pipe) => crate::bytes::push_str_bytes(out, "pipe"),
        DelimiterHint::Named(NamedDelimiter::Caret) => crate::bytes::push_str_bytes(out, "caret"),
        DelimiterHint::Byte(b) => {
            crate::bytes::push_str_bytes(out, "0x");
            push_upper_hex_byte(out, b);
        },
    }
}

impl RefusalDetail {
    /// Pair a refusal kind with its default guidance.
    pub fn with_default_next(kind: RefusalKind, paths: &RerunPaths) -> (r: RefusalDetail)
        ensures
            r.kind == kind,
            r.next@ == spec_default_next(kind, *paths),
    {
        let next = default_next(&kind, paths);
        RefusalDetail { kind, next }
    }
}

/// Build the default next-step guidance for a refusal kind.
#[verifier::rlimit(60)]
pub fn default_next(kind: &RefusalKind, paths: &RerunPaths) -> (r: Vec<u8>)
    ensures
        r@ == spec_default_next(*kind, *paths),
{
    let mut out: Vec<u8> = Vec::new();
    match kind {
        RefusalKind::Io { .. } => crate::bytes::push_str_bytes(
            &mut out,
            "check file paths/permissions and rerun",
        ),
        RefusalKind::Encoding { .. } => crate::bytes::push_str_bytes(
            &mut out,
            "convert/re-export both files as UTF-8 CSV and rerun",
        ),
        RefusalKind::CsvParse { .. } => crate::bytes::push_str_bytes(
            &mut out,
            "re-export as standard CSV (RFC4180 quoting) and rerun",
        ),
        RefusalKind::Headers { issue, .. } => match issue {
            HeadersIssue::MissingHeader => crate::bytes::push_str_bytes(
                &mut out,
                "ensure the file has a header row and rerun",
            ),
            HeadersIssue::Duplicate { .. } => crate::bytes::push_str_bytes(
                &mut out,
                "make header names unique and rerun",
            ),
            HeadersIssue::ExtraFields { .. } => crate::bytes::push_str_bytes(
                &mut out,
                "remove extra columns or re-export with consistent headers, then rerun",
            ),
        },
        RefusalKind::NoKey { key_column } => {
            push_key_rerun(&mut out, paths, key_column.as_slice());
        },
        RefusalKind::KeyEmpty { .. } => crate::bytes::push_str_bytes(
            &mut out,
            "choose a key column with no empty values (or fill missing keys), then rerun",
        ),
        RefusalKind::KeyDup { .. } => crate::bytes::push_str_bytes(
            &mut out,
            "choose a unique key column or dedupe the data, then rerun",
        ),
        RefusalKind::KeyMismatch { .. } => crate::bytes::push_str_bytes(
            &mut out,
            "export comparable scopes or fix the join key, then rerun",
        ),
        RefusalKind::RowCount { suggested_keys, .. } => {
            if suggested_keys.len() > 0 {
                proof {
                    assert(suggested_keys@[0]@ == suggested_keys@[0]@);
                }
                push_key_rerun(&mut out, paths, suggested_keys[0].as_slice());
                crate::bytes::push_str_bytes(
                    &mut out,
                    " to get a missing/extra-keys report (or export comparable scopes)",
                );
            } else {
                crate::bytes::push_str_bytes(
                    &mut out,
                    "export comparable scopes or rerun with --key <column>",
                );
            }
        },
        RefusalKind::NeedKey { suggested_keys } => {
            if suggested_keys.len() > 0 {
                push_key_rerun(&mut out, paths, suggested_keys[0].as_slice());
            } else {
                crate::bytes::push_str_bytes(&mut out, "rerun with --key <column>");
            }
        },
        RefusalKind::Dialect { file, suggestion, .. } => match suggestion {
            DialectSuggestion::ForceDelimiter(hint) => {
                crate::bytes::push_str_bytes(&mut out, "rvl ");
                crate::bytes::push_all(&mut out, paths.old.as_slice());
                crate::bytes::push_str_bytes(&mut out, " ");
                crate::bytes::push_all(&mut out, paths.new.as_slice());
                crate::bytes::push_str_bytes(&mut out, " --delimiter ");
                push_hint(&mut out, *hint);
            },
            DialectSuggestion::SepDirective(d) => {
                let db = *d;
                if db >= 0x21 && db <= 0x7E && db != 0x22 {
                    crate::bytes::push_str_bytes(&mut out, "add `sep=");
                    out.push(db);
                    proof {
                        assert(out@ =~= "add `sep=".spec_bytes() + seq![db]);
                    }
                    crate::bytes::push_str_bytes(
                        &mut out,
                        "` as the first non-blank line of the ",
                    );
                    match file {
                        FileSide::Old => crate::bytes::push_str_bytes(&mut out, "old"),
                        FileSide::New => crate::bytes::push_str_bytes(&mut out, "new"),
                    }
                    crate::bytes::push_str_bytes(&mut out, " file (no whitespace), then rerun");
                } else {
                    crate::bytes::push_str_bytes(&mut out, "rvl ");
                    crate::bytes::push_all(&mut out, paths.old.as_slice());
                    crate::bytes::push_str_bytes(&mut out, " ");
                    crate::bytes::push_all(&mut out, paths.new.as_slice());
                    crate::bytes::push_str_bytes(&mut out, " --delimiter ");
                    push_hint(&mut out, DelimiterHint::Byte(db));
                }
            },
        },
        RefusalKind::MixedTypes { .. } => crate::bytes::push_str_bytes(
            &mut out,
            "normalize column values to numeric (or exclude the column) and rerun",
        ),
        RefusalKind::NoNumeric => crate::bytes::push_str_bytes(
            &mut out,
            "ensure common numeric columns exist (or adjust inputs) and rerun",
        ),
        RefusalKind::Missingness { .. } => crate::bytes::push_str_bytes(
            &mut out,
            "fill missing values or remove the column, then rerun",
        ),
        RefusalKind::Diffuse { .. } => {
            crate::bytes::push_str_bytes(&mut out, "rvl ");
            crate::bytes::push_all(&mut out, paths.old.as_slice());
            crate::bytes::push_str_bytes(&mut out, " ");
            crate::bytes::push_all(&mut out, paths.new.as_slice());
            crate::bytes::push_str_bytes(&mut out, " --threshold 0.80");
        },
    }
    out
}

/// Append `rvl <old> <new> --key <ident>` to the output.
fn push_key_rerun(out: &mut Vec<u8>, paths: &RerunPaths, key: &[u8])
    ensures
        final(out)@ == old(out)@ + spec_key_rerun(*paths, key@),
{
    crate::bytes::push_str_bytes(out, "rvl ");
    crate::bytes::push_all(out, paths.old.as_slice());
    crate::bytes::push_str_bytes(out, " ");
    crate::bytes::push_all(out, paths.new.as_slice());
    crate::bytes::push_str_bytes(out, " --key ");
    let ident = crate::ident_json::encode_identifier_json(key);
    crate::bytes::push_all(out, ident.as_slice());
}

} // verus!
