//! Delimiter flag parsing and validation.

use vstd::prelude::*;
use vstd::string::StringSliceAdditionalSpecFns;

use crate::sep::spec_is_valid_delimiter;

verus! {

/// Error returned when a delimiter flag cannot be parsed.
#[derive(Debug, Clone, Copy, PartialEq, Eq, Structural)]
pub enum DelimiterError {
    Empty,
    InvalidHex,
    InvalidValue,
    NonAscii,
    InvalidByte(u8),
}

impl DelimiterError {
    /// A short description for process-level error reporting.
    pub fn message(&self) -> (r: &'static str) {
        match self {
            DelimiterError::Empty => "delimiter is empty",
            DelimiterError::InvalidHex => "invalid hex delimiter; expected a two-digit byte",
            DelimiterError::InvalidValue => "invalid delimiter value",
            DelimiterError::NonAscii => "delimiter must be a single ASCII byte",
            DelimiterError::InvalidByte(_) => "invalid delimiter byte",
        }
    }
}

/// ASCII lower-casing of a byte.
pub open spec fn spec_lower(b: u8) -> u8 {
    if 0x41 <= b && b <= 0x5A {
        (b + 0x20) as u8
    } else {
        b
    }
}

/// The lower-cased bytes of the argument.
pub open spec fn lower_of(s: Seq<u8>) -> Seq<u8> {
    s.map_values(|b: u8| spec_lower(b))
}

/// A named delimiter word, after lower-casing.
pub open spec fn spec_named_delimiter(low: Seq<u8>) -> Option<u8> {
    if low =~= seq![0x63u8, 0x6F, 0x6D, 0x6D, 0x61] {
        Some(0x2Cu8)  // comma
    } else if low =~= seq![0x74u8, 0x61, 0x62] {
        Some(0x09u8)  // tab
    } else if low =~= seq![0x73u8, 0x65, 0x6D, 0x69, 0x63, 0x6F, 0x6C, 0x6F, 0x6E] {
        Some(0x3Bu8)  // semicolon
    } else if low =~= seq![0x70u8, 0x69, 0x70, 0x65] {
        Some(0x7Cu8)  // pipe
    } else if low =~= seq![0x63u8, 0x61, 0x72, 0x65, 0x74] {
        Some(0x5Eu8)  // caret
    } else {
        None
    }
}

/// A lower-case hex digit's value, or 16.
pub open spec fn spec_lhex(b: u8) -> u8 {
    if 0x30 <= b && b <= 0x39 {
        (b - 0x30) as u8
    } else if 0x61 <= b && b <= 0x66 {
        (b - 0x61 + 10) as u8
    } else {
        16
    }
}

/// The single argument byte-count of a UTF-8 character beginning at the
/// first byte, when the whole argument is exactly one character.
pub open spec fn spec_single_char_len(s: Seq<u8>) -> bool {
    ||| (s.len() == 2 && 0xC2 <= s[0] && s[0] <= 0xDF)
    ||| (s.len() == 3 && 0xE0 <= s[0] && s[0] <= 0xEF)
    ||| (s.len() == 4 && 0xF0 <= s[0] && s[0] <= 0xF4)
}

/// The delimiter byte validation: `0x01..=0x7F`, not `"`/CR/LF.
pub open spec fn spec_delimiter_check(b: u8) -> Result<u8, DelimiterError> {
    if spec_is_valid_delimiter(b) {
        Ok(b)
    } else {
        Err(DelimiterError::InvalidByte(b))
    }
}

/// What parsing a delimiter flag must yield, over the argument bytes.
pub open spec fn spec_parse_delimiter(s: Seq<u8>) -> Result<u8, DelimiterError> {
    let low = lower_of(s);
    if s.len() == 0 {
        Err(DelimiterError::Empty)
    } else if spec_named_delimiter(low) is Some {
        Ok(spec_named_delimiter(low)->Some_0)
    } else if low.len() >= 2 && low[0] == 0x30 && low[1] == 0x78 {
        if low.len() != 4 {
            Err(DelimiterError::InvalidHex)
        } else if spec_lhex(low[2]) < 16 && spec_lhex(low[3]) < 16 {
            spec_delimiter_check((spec_lhex(low[2]) * 16 + spec_lhex(low[3])) as u8)
        } else {
            Err(DelimiterError::InvalidHex)
        }
    } else if s.len() == 1 {
        if s[0] < 0x80 {
            spec_delimiter_check(s[0])
        } else {
            Err(DelimiterError::InvalidValue)
        }
    } else if spec_single_char_len(s) {
        Err(DelimiterError::NonAscii)
    } else {
        Err(DelimiterError::InvalidValue)
    }
}

fn lower_vec(s: &[u8]) -> (r: Vec<u8>)
    ensures
        r@ == lower_of(s@),
{
    let n = s.len();
    let mut out: Vec<u8> = Vec::new();
    let mut i: usize = 0;
    while i < n
        invariant
            0 <= i <= n,
            n == s@.len(),
            out@.len() == i,
            forall|j: int| 0 <= j < i ==> out@[j] == spec_lower(s@[j]),
        decreases n - i,
    {
        let b = s[i];
        out.push(
            if 0x41 <= b && b <= 0x5A {
                b + 0x20
            } else {
                b
            },
        );
        i = i + 1;
    }
    proof {
        assert(out@ =~= lower_of(s@));
    }
    out
}

fn eq_word(a: &[u8], w0: u8, w1: u8, w2: u8) -> (r: bool)
    ensures
        r == (a@ =~= seq![w0, w1, w2]),
{
    let r = a.len() == 3 && a[0] == w0 && a[1] == w1 && a[2] == w2;
    proof {
        if r {
            assert(a@ =~= seq![w0, w1, w2]);
        }
    }
    r
}

fn lhex(b: u8) -> (r: u8)
    ensures
        r == spec_lhex(b),
{
    if 0x30 <= b && b <= 0x39 {
        b - 0x30
    } else if 0x61 <= b && b <= 0x66 {
        b - 0x61 + 10
    } else {
        16
    }
}

fn check_byte(b: u8) -> (r: Result<u8, DelimiterError>)
    ensures
        r == spec_delimiter_check(b),
{
    if crate::sep::is_valid_delimiter(b) {
        Ok(b)
    } else {
        Err(DelimiterError::InvalidByte(b))
    }
}

/// Parse a delimiter flag into a single byte.
///
/// Accepted inputs: the names comma, tab, semicolon, pipe, caret
/// (case-insensitive); `0xNN` hex; or a single ASCII character.
pub fn parse_delimiter_arg(raw: &str) -> (r: Result<u8, DelimiterError>)
    ensures
        r == spec_parse_delimiter(raw.spec_bytes()),
{
    let s = raw.as_bytes();
    let n = s.len();
    if n == 0 {
        return Err(DelimiterError::Empty);
    }
    let low = lower_vec(s);
    let ghost lw = lower_of(raw.spec_bytes());
    // named delimiters
    let named: Option<u8> = if low.len() == 5 && low[0] == 0x63 && low[1] == 0x6F && low[2] == 0x6D
        && low[3] == 0x6D && low[4] == 0x61 {
        proof {
            assert(lw =~= seq![0x63u8, 0x6F, 0x6D, 0x6D, 0x61]);
        }
        Some(0x2C)
    } else if eq_word(low.as_slice(), 0x74, 0x61, 0x62) {
        Some(0x09)
    } else if low.len() == 9 && low[0] == 0x73 && low[1] == 0x65 && low[2] == 0x6D && low[3] == 0x69
        && low[4] == 0x63 && low[5] == 0x6F && low[6] == 0x6C && low[7] == 0x6F && low[8] == 0x6E {
        proof {
            assert(lw =~= seq![0x73u8, 0x65, 0x6D, 0x69, 0x63, 0x6F, 0x6C, 0x6F, 0x6E]);
        }
        Some(0x3B)
    } else if low.len() == 4 && low[0] == 0x70 && low[1] == 0x69 && low[2] == 0x70 && low[3]
        == 0x65 {
        proof {
            assert(lw =~= seq![0x70u8, 0x69, 0x70, 0x65]);
        }
        Some(0x7C)
    } else if low.len() == 5 && low[0] == 0x63 && low[1] == 0x61 && low[2] == 0x72 && low[3] == 0x65
        && low[4] == 0x74 {
        proof {
            assert(lw =~= seq![0x63u8, 0x61, 0x72, 0x65, 0x74]);
        }
        Some(0x5E)
    } else {
        proof {
            assert(spec_named_delimiter(lw) is None);
        }
        None
    };
    match named {
        Some(b) => {
            return Ok(b);
        },
        None => {},
    }
    // hex form 0xNN
    if low.len() >= 2 && low[0] == 0x30 && low[1] == 0x78 {
        if low.len() != 4 {
            return Err(DelimiterError::InvalidHex);
        }
        let h = lhex(low[2]);
        let l = lhex(low[3]);
        if h < 16 && l < 16 {
            return check_byte(h * 16 + l);
        }
        return Err(DelimiterError::InvalidHex);
    }
    // single character
    if n == 1 {
        let b = s[0];
        if b < 0x80 {
            return check_byte(b);
        }
        return Err(DelimiterError::InvalidValue);
    }
    let b0 = s[0];
    if (n == 2 && 0xC2 <= b0 && b0 <= 0xDF) || (n == 3 && 0xE0 <= b0 && b0 <= 0xEF) || (n == 4
        && 0xF0 <= b0 && b0 <= 0xF4) {
        return Err(DelimiterError::NonAscii);
    }
    Err(DelimiterError::InvalidValue)
}

} // verus!
