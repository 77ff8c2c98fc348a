//! The refusal taxonomy: fixed codes, each with a stable short reason.

use vstd::prelude::*;
use vstd::string::StringSliceAdditionalSpecFns;

verus! {

/// Canonical refusal codes.
#[derive(Debug, Clone, Copy, PartialEq, Eq, Hash, Structural)]
pub enum RefusalCode {
    Io,
    Encoding,
    CsvParse,
    Headers,
    NoKey,
    KeyEmpty,
    KeyDup,
    KeyMismatch,
    RowCount,
    NeedKey,
    Dialect,
    MixedTypes,
    NoNumeric,
    Missingness,
    Diffuse,
}

/// Error for an unrecognized code string.
#[derive(Debug, Clone, Copy, PartialEq, Eq, Structural)]
pub struct UnknownRefusalCode;

/// The `E_*` name of each code.
pub open spec fn spec_code_str(c: RefusalCode) -> Seq<char> {
    match c {
        RefusalCode::Io => "E_IO"@,
        RefusalCode::Encoding => "E_ENCODING"@,
        RefusalCode::CsvParse => "E_CSV_PARSE"@,
        RefusalCode::Headers => "E_HEADERS"@,
        RefusalCode::NoKey => "E_NO_KEY"@,
        RefusalCode::KeyEmpty => "E_KEY_EMPTY"@,
        RefusalCode::KeyDup => "E_KEY_DUP"@,
        RefusalCode::KeyMismatch => "E_KEY_MISMATCH"@,
        RefusalCode::RowCount => "E_ROWCOUNT"@,
        RefusalCode::NeedKey => "E_NEED_KEY"@,
        RefusalCode::Dialect => "E_DIALECT"@,
        RefusalCode::MixedTypes => "E_MIXED_TYPES"@,
        RefusalCode::NoNumeric => "E_NO_NUMERIC"@,
        RefusalCode::Missingness => "E_MISSINGNESS"@,
        RefusalCode::Diffuse => "E_DIFFUSE"@,
    }
}

/// The `E_*` name of each code, as bytes for output assembly.
pub open spec fn spec_code_bytes(c: RefusalCode) -> Seq<u8> {
    match c {
        RefusalCode::Io => "E_IO".spec_bytes(),
        RefusalCode::Encoding => "E_ENCODING".spec_bytes(),
        RefusalCode::CsvParse => "E_CSV_PARSE".spec_bytes(),
        RefusalCode::Headers => "E_HEADERS".spec_bytes(),
        RefusalCode::NoKey => "E_NO_KEY".spec_bytes(),
        RefusalCode::KeyEmpty => "E_KEY_EMPTY".spec_bytes(),
        RefusalCode::KeyDup => "E_KEY_DUP".spec_bytes(),
        RefusalCode::KeyMismatch => "E_KEY_MISMATCH".spec_bytes(),
        RefusalCode::RowCount => "E_ROWCOUNT".spec_bytes(),
        RefusalCode::NeedKey => "E_NEED_KEY".spec_bytes(),
        RefusalCode::Dialect => "E_DIALECT".spec_bytes(),
        RefusalCode::MixedTypes => "E_MIXED_TYPES".spec_bytes(),
        RefusalCode::NoNumeric => "E_NO_NUMERIC".spec_bytes(),
        RefusalCode::Missingness => "E_MISSINGNESS".spec_bytes(),
        RefusalCode::Diffuse => "E_DIFFUSE".spec_bytes(),
    }
}

/// The short reason line of each code, as bytes for output assembly.
pub open spec fn spec_reason_bytes(c: RefusalCode) -> Seq<u8> {
    match c {
        RefusalCode::Io => "file read error".spec_bytes(),
        RefusalCode::Encoding => "unsupported text encoding".spec_bytes(),
        RefusalCode::CsvParse => "CSV parse failure".spec_bytes(),
        RefusalCode::Headers => "invalid or duplicate headers".spec_bytes(),
        RefusalCode::NoKey => "key column missing".spec_bytes(),
        RefusalCode::KeyEmpty => "empty key value".spec_bytes(),
        RefusalCode::KeyDup => "duplicate key values".spec_bytes(),
        RefusalCode::KeyMismatch => "key sets differ".spec_bytes(),
        RefusalCode::RowCount => "row count mismatch".spec_bytes(),
        RefusalCode::NeedKey => "cannot deterministically align without a key".spec_bytes(),
        RefusalCode::Dialect => "delimiter ambiguous or undetectable".spec_bytes(),
        RefusalCode::MixedTypes => "mixed numeric and non-numeric values".spec_bytes(),
        RefusalCode::NoNumeric => "no numeric columns in common".spec_bytes(),
        RefusalCode::Missingness => "missing value vs numeric value".spec_bytes(),
        RefusalCode::Diffuse => "diffuse change below coverage threshold".spec_bytes(),
    }
}

impl RefusalCode {
    /// The stable `E_*` code name.
    pub fn as_str(self) -> (r: &'static str)
        ensures
            r@ == spec_code_str(self),
            r.spec_bytes() == spec_code_bytes(self),
    {
        match self {
            RefusalCode::Io => "E_IO",
            RefusalCode::Encoding => "E_ENCODING",
            RefusalCode::CsvParse => "E_CSV_PARSE",
            RefusalCode::Headers => "E_HEADERS",
            RefusalCode::NoKey => "E_NO_KEY",
            RefusalCode::KeyEmpty => "E_KEY_EMPTY",
            RefusalCode::KeyDup => "E_KEY_DUP",
            RefusalCode::KeyMismatch => "E_KEY_MISMATCH",
            RefusalCode::RowCount => "E_ROWCOUNT",
            RefusalCode::NeedKey => "E_NEED_KEY",
            RefusalCode::Dialect => "E_DIALECT",
            RefusalCode::MixedTypes => "E_MIXED_TYPES",
            RefusalCode::NoNumeric => "E_NO_NUMERIC",
            RefusalCode::Missingness => "E_MISSINGNESS",
            RefusalCode::Diffuse => "E_DIFFUSE",
        }
    }

    /// A short, stable reason label for human output.
    pub fn reason(self) -> (r: &'static str)
        ensures
            r.spec_bytes() == spec_reason_bytes(self),
    {
        match self {
            RefusalCode::Io => "file read error",
            RefusalCode::Encoding => "unsupported text encoding",
            RefusalCode::CsvParse => "CSV parse failure",
            RefusalCode::Headers => "invalid or duplicate headers",
            RefusalCode::NoKey => "key column missing",
            RefusalCode::KeyEmpty => "empty key value",
            RefusalCode::KeyDup => "duplicate key values",
            RefusalCode::KeyMismatch => "key sets differ",
            RefusalCode::RowCount => "row count mismatch",
            RefusalCode::NeedKey => "cannot deterministically align without a key",
            RefusalCode::Dialect => "delimiter ambiguous or undetectable",
            RefusalCode::MixedTypes => "mixed numeric and non-numeric values",
            RefusalCode::NoNumeric => "no numeric columns in common",
            RefusalCode::Missingness => "missing value vs numeric value",
            RefusalCode::Diffuse => "diffuse change below coverage threshold",
        }
    }

    /// Parse a code name back into the code, for callers that read the
    /// JSON `refusal.code` field.
    pub fn parse_code(s: &str) -> (r: Result<RefusalCode, UnknownRefusalCode>)
        ensures
            r matches Ok(c) ==> s.spec_bytes() == spec_code_bytes(c),
            r is Err ==> forall|c: RefusalCode| s.spec_bytes() != spec_code_bytes(c),
    {
        if streq(s, "E_IO") {
            Ok(RefusalCode::Io)
        } else if streq(s, "E_ENCODING") {
            Ok(RefusalCode::Encoding)
        } else if streq(s, "E_CSV_PARSE") {
            Ok(RefusalCode::CsvParse)
        } else if streq(s, "E_HEADERS") {
            Ok(RefusalCode::Headers)
        } else if streq(s, "E_NO_KEY") {
            Ok(RefusalCode::NoKey)
        } else if streq(s, "E_KEY_EMPTY") {
            Ok(RefusalCode::KeyEmpty)
        } else if streq(s, "E_KEY_DUP") {
            Ok(RefusalCode::KeyDup)
        } else if streq(s, "E_KEY_MISMATCH") {
            Ok(RefusalCode::KeyMismatch)
        } else if streq(s, "E_ROWCOUNT") {
            Ok(RefusalCode::RowCount)
        } else if streq(s, "E_NEED_KEY") {
            Ok(RefusalCode::NeedKey)
        } else if streq(s, "E_DIALECT") {
            Ok(RefusalCode::Dialect)
        } else if streq(s, "E_MIXED_TYPES") {
            Ok(RefusalCode::MixedTypes)
        } else if streq(s, "E_NO_NUMERIC") {
            Ok(RefusalCode::NoNumeric)
        } else if streq(s, "E_MISSINGNESS") {
            Ok(RefusalCode::Missingness)
        } else if streq(s, "E_DIFFUSE") {
            Ok(RefusalCode::Diffuse)
        } else {
            proof {
                assert forall|c: RefusalCode| s.spec_bytes() != spec_code_bytes(c) by {
                    match c {
                        RefusalCode::Io => assert(s.spec_bytes() != "E_IO".spec_bytes()),
                        RefusalCode::Encoding => assert(s.spec_bytes() != "E_ENCODING".spec_bytes()),
                        RefusalCode::CsvParse => assert(s.spec_bytes() != "E_CSV_PARSE".spec_bytes()),
                        RefusalCode::Headers => assert(s.spec_bytes() != "E_HEADERS".spec_bytes()),
                        RefusalCode::NoKey => assert(s.spec_bytes() != "E_NO_KEY".spec_bytes()),
                        RefusalCode::KeyEmpty => assert(s.spec_bytes() != "E_KEY_EMPTY".spec_bytes()),
                        RefusalCode::KeyDup => assert(s.spec_bytes() != "E_KEY_DUP".spec_bytes()),
                        RefusalCode::KeyMismatch => assert(s.spec_bytes()
                            != "E_KEY_MISMATCH".spec_bytes()),
                        RefusalCode::RowCount => assert(s.spec_bytes() != "E_ROWCOUNT".spec_bytes()),
                        RefusalCode::NeedKey => assert(s.spec_bytes() != "E_NEED_KEY".spec_bytes()),
                        RefusalCode::Dialect => assert(s.spec_bytes() != "E_DIALECT".spec_bytes()),
                        RefusalCode::MixedTypes => assert(s.spec_bytes()
                            != "E_MIXED_TYPES".spec_bytes()),
                        RefusalCode::NoNumeric => assert(s.spec_bytes()
                            != "E_NO_NUMERIC".spec_bytes()),
                        RefusalCode::Missingness => assert(s.spec_bytes()
                            != "E_MISSINGNESS".spec_bytes()),
                        RefusalCode::Diffuse => assert(s.spec_bytes() != "E_DIFFUSE".spec_bytes()),
                    }
                }
            }
            Err(UnknownRefusalCode)
        }
    }
}

/// Byte-level equality of two strings.
fn streq(a: &str, b: &str) -> (r: bool)
    ensures
        r == (a.spec_bytes() == b.spec_bytes()),
{
    crate::bytes::bytes_eq(a.as_bytes(), b.as_bytes())
}

} // verus!
