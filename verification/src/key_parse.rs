//! Key column argument parsing.
//!
//! `--key` accepts a plain UTF-8 string, `u8:<utf8>`, or `hex:<even-hex>`
//! (case-insensitive hex digits), each denoting raw header bytes.

use vstd::prelude::*;
use vstd::string::StringSliceAdditionalSpecFns;

verus! {

/// Errors encountered while parsing a key identifier argument.
#[derive(Debug, Clone, Copy, PartialEq, Eq, Structural)]
pub enum KeyParseError {
    Empty,
    InvalidHex,
    OddHexLen,
}

impl KeyParseError {
    /// A short description for process-level error reporting.
    pub fn message(&self) -> (r: &'static str)
        ensures
            r@ == self.spec_message(),
    {
        match self {
            KeyParseError::Empty => "key identifier is empty",
            KeyParseError::InvalidHex => "invalid hex key identifier",
            KeyParseError::OddHexLen => "hex key identifier must have even length",
        }
    }

    /// The description text of each variant.
    pub open spec fn spec_message(&self) -> Seq<char> {
        match self {
            KeyParseError::Empty => "key identifier is empty"@,
            KeyParseError::InvalidHex => "invalid hex key identifier"@,
            KeyParseError::OddHexLen => "hex key identifier must have even length"@,
        }
    }
}

/// A hex digit's value, or 16 when the byte is not a hex digit.
pub open spec fn spec_hex_nibble(b: u8) -> u8 {
    if 0x30 <= b && b <= 0x39 {
        (b - 0x30) as u8
    } else if 0x61 <= b && b <= 0x66 {
        (b - 0x61 + 10) as u8
    } else if 0x41 <= b && b <= 0x46 {
        (b - 0x41 + 10) as u8
    } else {
        16
    }
}

/// Every byte is a hex digit.
pub open spec fn spec_all_hex(s: Seq<u8>) -> bool {
    forall|i: int| 0 <= i < s.len() ==> spec_hex_nibble(#[trigger] s[i]) < 16
}

/// The bytes denoted by an even-length hex digit string.
pub open spec fn spec_hex_decode(s: Seq<u8>) -> Seq<u8> {
    Seq::new((s.len() / 2) as nat, |i: int| (spec_hex_nibble(s[2 * i]) * 16 + spec_hex_nibble(
        s[2 * i + 1],
    )) as u8)
}

/// The `u8:` prefix.
pub open spec fn spec_u8_prefix(s: Seq<u8>) -> bool {
    s.len() >= 3 && s[0] == 0x75 && s[1] == 0x38 && s[2] == 0x3A
}

/// The `hex:` prefix.
pub open spec fn spec_hex_prefix(s: Seq<u8>) -> bool {
    s.len() >= 4 && s[0] == 0x68 && s[1] == 0x65 && s[2] == 0x78 && s[3] == 0x3A
}

/// What parsing a key identifier must yield, over the argument bytes.
pub open spec fn spec_parse_key(s: Seq<u8>) -> Result<Seq<u8>, KeyParseError> {
    if s.len() == 0 {
        Err(KeyParseError::Empty)
    } else if spec_u8_prefix(s) {
        Ok(s.skip(3))
    } else if spec_hex_prefix(s) {
        let hex = s.skip(4);
        if hex.len() == 0 {
            Err(KeyParseError::InvalidHex)
        } else if hex.len() % 2 != 0 {
            Err(KeyParseError::OddHexLen)
        } else if !spec_all_hex(hex) {
            Err(KeyParseError::InvalidHex)
        } else {
            Ok(spec_hex_decode(hex))
        }
    } else {
        Ok(s)
    }
}

fn hex_nibble(b: u8) -> (r: u8)
    ensures
        r == spec_hex_nibble(b),
{
    if 0x30 <= b && b <= 0x39 {
        b - 0x30
    } else if 0x61 <= b && b <= 0x66 {
        b - 0x61 + 10
    } else if 0x41 <= b && b <= 0x46 {
        b - 0x41 + 10
    } else {
        16
    }
}

/// Parse a `--key` argument into raw normalized-header bytes.
pub fn parse_key_identifier(raw: &str) -> (r: Result<Vec<u8>, KeyParseError>)
    ensures
        ({
            let spec = spec_parse_key(raw.spec_bytes());
            match r {
                Ok(v) => spec is Ok && v@ == spec->Ok_0,
                Err(e) => spec == Result::<Seq<u8>, KeyParseError>::Err(e),
            }
        }),
{
    let s = raw.as_bytes();
    let n = s.len();
    if n == 0 {
        return Err(KeyParseError::Empty);
    }
    if n >= 3 && s[0] == 0x75 && s[1] == 0x38 && s[2] == 0x3A {
        let rest = vstd::slice::slice_subrange(s, 3, n);
        proof {
            assert(rest@ =~= raw.spec_bytes().skip(3));
        }
        return Ok(crate::bytes::to_vec_bytes(rest));
    }
    if n >= 4 && s[0] == 0x68 && s[1] == 0x65 && s[2] == 0x78 && s[3] == 0x3A {
        let hex = vstd::slice::slice_subrange(s, 4, n);
        proof {
            assert(hex@ =~= raw.spec_bytes().skip(4));
        }
        let hn = hex.len();
        if hn == 0 {
            return Err(KeyParseError::InvalidHex);
        }
        if hn % 2 != 0 {
            return Err(KeyParseError::OddHexLen);
        }
        let mut out: Vec<u8> = Vec::new();
        let mut i: usize = 0;
        while i < hn
            invariant
                0 <= i <= hn,
                i % 2 == 0,
                hn == hex@.len(),
                hn % 2 == 0,
                hn > 0,
                hex@ == raw.spec_bytes().skip(4),
                raw.spec_bytes().len() > 0,
                !spec_u8_prefix(raw.spec_bytes()),
                spec_hex_prefix(raw.spec_bytes()),
                out@.len() == i / 2,
                forall|j: int| 0 <= j < i ==> spec_hex_nibble(#[trigger] hex@[j]) < 16,
                forall|k: int|
                    0 <= k < i / 2 ==> out@[k] == (spec_hex_nibble(hex@[2 * k]) * 16
                        + spec_hex_nibble(hex@[2 * k + 1])) as u8,
            decreases hn - i,
        {
            let high = hex_nibble(hex[i]);
            let low = hex_nibble(hex[i + 1]);
            if high >= 16 || low >= 16 {
                proof {
                    if high >= 16 {
                        assert(spec_hex_nibble(hex@[i as int]) >= 16);
                    } else {
                        assert(spec_hex_nibble(hex@[i + 1]) >= 16);
                    }
                    assert(!spec_all_hex(hex@));
                    assert(spec_parse_key(raw.spec_bytes()) == Result::<Seq<u8>,
                        KeyParseError,
                    >::Err(KeyParseError::InvalidHex));
                }
                return Err(KeyParseError::InvalidHex);
            }
            out.push(high * 16 + low);
            i = i + 2;
        }
        proof {
            assert(out@ =~= spec_hex_decode(hex@));
        }
        return Ok(out);
    }
    Ok(crate::bytes::to_vec_bytes(s))
}

} // verus!
