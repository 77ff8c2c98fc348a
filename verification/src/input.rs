//! Input bytes, BOM stripping, and encoding guardrails.

use vstd::prelude::*;

use crate::bytes;

verus! {

/// Maximum number of bytes to scan for NUL (0x00).
pub const NUL_SCAN_LIMIT: usize = 8192;

/// Encoding guardrail failures.
#[derive(Debug, Clone, Copy, PartialEq, Eq, Structural)]
pub enum EncodingIssue {
    /// UTF-16/UTF-32 BOM detected.
    Utf16Or32Bom,
    /// NUL byte detected within the first 8 KiB.
    NulByte,
}

/// The buffer begins with a UTF-16 BOM (`FE FF` or `FF FE`) or a UTF-32 BOM
/// (`00 00 FE FF`; `FF FE 00 00` already matches the UTF-16 LE pattern).
pub open spec fn spec_has_utf16_or_32_bom(s: Seq<u8>) -> bool {
    (s.len() >= 2 && s[0] == 0xFE && s[1] == 0xFF) || (s.len() >= 2 && s[0] == 0xFF && s[1] == 0xFE)
        || (s.len() >= 4 && s[0] == 0x00 && s[1] == 0x00 && s[2] == 0xFE && s[3] == 0xFF)
}

/// The buffer begins specifically with a UTF-32 BOM (checked before the
/// UTF-16 prefixes, whose patterns overlap it).
pub open spec fn spec_has_utf32_bom(s: Seq<u8>) -> bool {
    (s.len() >= 4 && s[0] == 0xFF && s[1] == 0xFE && s[2] == 0x00 && s[3] == 0x00) || (s.len() >= 4
        && s[0] == 0x00 && s[1] == 0x00 && s[2] == 0xFE && s[3] == 0xFF)
}

/// The buffer begins with the UTF-8 BOM `EF BB BF`.
pub open spec fn spec_has_utf8_bom(s: Seq<u8>) -> bool {
    s.len() >= 3 && s[0] == 0xEF && s[1] == 0xBB && s[2] == 0xBF
}

/// The slice after stripping a UTF-8 BOM, if one is present.
pub open spec fn spec_strip_utf8_bom(s: Seq<u8>) -> Seq<u8> {
    if spec_has_utf8_bom(s) {
        s.skip(3)
    } else {
        s
    }
}

/// A NUL byte occurs among the first `NUL_SCAN_LIMIT` bytes.
pub open spec fn spec_has_nul_in_first_8k(s: Seq<u8>) -> bool {
    exists|i: int| 0 <= i < s.len() && i < NUL_SCAN_LIMIT && s[i] == 0x00
}

/// Returns true if the input begins with a UTF-16 or UTF-32 BOM.
pub fn has_utf16_or_utf32_bom(input: &[u8]) -> (r: bool)
    ensures
        r == spec_has_utf16_or_32_bom(input@),
{
    if input.len() >= 2 {
        let b0 = input[0];
        let b1 = input[1];
        if (b0 == 0xFE && b1 == 0xFF) || (b0 == 0xFF && b1 == 0xFE) {
            return true;
        }
        if input.len() >= 4 && b0 == 0x00 && b1 == 0x00 && input[2] == 0xFE && input[3] == 0xFF {
            return true;
        }
    }
    false
}

/// Returns true if the input begins with a UTF-32 BOM specifically.
pub fn has_utf32_bom(input: &[u8]) -> (r: bool)
    ensures
        r == spec_has_utf32_bom(input@),
{
    if input.len() >= 4 {
        let b0 = input[0];
        let b1 = input[1];
        let b2 = input[2];
        let b3 = input[3];
        (b0 == 0xFF && b1 == 0xFE && b2 == 0x00 && b3 == 0x00) || (b0 == 0x00 && b1 == 0x00 && b2
            == 0xFE && b3 == 0xFF)
    } else {
        false
    }
}

/// Strip a UTF-8 BOM if present. Returns the stripped slice and a flag.
pub fn strip_utf8_bom(input: &[u8]) -> (r: (&[u8], bool))
    ensures
        r.1 == spec_has_utf8_bom(input@),
        r.0@ == spec_strip_utf8_bom(input@),
{
    if input.len() >= 3 && input[0] == 0xEF && input[1] == 0xBB && input[2] == 0xBF {
        let rest = vstd::slice::slice_subrange(input, 3, input.len());
        proof {
            assert(input@.subrange(3, input@.len() as int) =~= input@.skip(3));
        }
        (rest, true)
    } else {
        (input, false)
    }
}

/// Returns true if a NUL byte (0x00) is found within the first 8 KiB.
pub fn has_nul_in_first_8k(input: &[u8]) -> (r: bool)
    ensures
        r == spec_has_nul_in_first_8k(input@),
{
    let n = if input.len() < NUL_SCAN_LIMIT {
        input.len()
    } else {
        NUL_SCAN_LIMIT
    };
    let mut i: usize = 0;
    while i < n
        invariant
            0 <= i <= n,
            n == if input@.len() < NUL_SCAN_LIMIT {
                input@.len() as int
            } else {
                NUL_SCAN_LIMIT as int
            },
            forall|j: int| 0 <= j < i ==> input@[j] != 0x00,
        decreases n - i,
    {
        if input[i] == 0x00 {
            return true;
        }
        i = i + 1;
    }
    false
}

/// Apply encoding guardrails and strip a UTF-8 BOM if present.
///
/// Order of checks:
/// 1. UTF-16/UTF-32 BOM: refuse.
/// 2. UTF-8 BOM: strip and continue.
/// 3. NUL byte in the first 8 KiB of the stripped buffer: refuse.
pub fn guard_input_bytes(input: &[u8]) -> (r: Result<&[u8], EncodingIssue>)
    ensures
        spec_has_utf16_or_32_bom(input@) ==> r == Result::<&[u8], EncodingIssue>::Err(
            EncodingIssue::Utf16Or32Bom,
        ),
        !spec_has_utf16_or_32_bom(input@) && spec_has_nul_in_first_8k(spec_strip_utf8_bom(input@))
            ==> r == Result::<&[u8], EncodingIssue>::Err(EncodingIssue::NulByte),
        !spec_has_utf16_or_32_bom(input@) && !spec_has_nul_in_first_8k(
            spec_strip_utf8_bom(input@),
        ) ==> r is Ok && r->Ok_0@ == spec_strip_utf8_bom(input@),
{
    if has_utf16_or_utf32_bom(input) {
        return Err(EncodingIssue::Utf16Or32Bom);
    }
    let (stripped, _had_utf8_bom) = strip_utf8_bom(input);
    if has_nul_in_first_8k(stripped) {
        return Err(EncodingIssue::NulByte);
    }
    Ok(stripped)
}

/// Whether the refused BOM was UTF-32 (else UTF-16), for the refusal detail.
/// The UTF-32 patterns are checked first because they extend UTF-16 ones.
pub fn classify_bom_is_utf32(input: &[u8]) -> (r: bool)
    ensures
        r == spec_has_utf32_bom(input@),
{
    has_utf32_bom(input)
}

} // verus!
