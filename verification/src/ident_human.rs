//! Identifier rendering for human output.
//!
//! Clean UTF-8 prints bare, unless it already starts with `u8:` or `hex:`
//! (then a `u8:` prefix disambiguates); anything else prints as
//! `hex:<lowercase hex>`.

use vstd::prelude::*;

use crate::bytes::hex_bytes_of;
use crate::ident_json::{hex_prefix_bytes, spec_u8_form, u8_prefix_bytes};

verus! {

/// Whether the bytes begin with `u8:` or `hex:`.
pub open spec fn spec_ambiguous_start(s: Seq<u8>) -> bool {
    (s.len() >= 3 && s[0] == 0x75 && s[1] == 0x38 && s[2] == 0x3A) || (s.len() >= 4 && s[0] == 0x68
        && s[1] == 0x65 && s[2] == 0x78 && s[3] == 0x3A)
}

/// The human identifier rendering of a byte string.
pub open spec fn spec_render_human(s: Seq<u8>) -> Seq<u8> {
    if spec_u8_form(s) {
        if spec_ambiguous_start(s) {
            u8_prefix_bytes() + s
        } else {
            s
        }
    } else {
        hex_prefix_bytes() + hex_bytes_of(s)
    }
}

/// Render an identifier for human output.
pub fn render_identifier_human(bytes: &[u8]) -> (r: Vec<u8>)
    ensures
        r@ == spec_render_human(bytes@),
{
    let mut out: Vec<u8> = Vec::new();
    if crate::bytes::is_valid_utf8(bytes) && !crate::bytes::has_ascii_control(bytes) {
        let n = bytes.len();
        let u8_start = n >= 3 && bytes[0] == 0x75 && bytes[1] == 0x38 && bytes[2] == 0x3A;
        let hex_start = n >= 4 && bytes[0] == 0x68 && bytes[1] == 0x65 && bytes[2] == 0x78
            && bytes[3] == 0x3A;
        if u8_start || hex_start {
            out.push(0x75);
            out.push(0x38);
            out.push(0x3A);
            proof {
                assert(out@ =~= u8_prefix_bytes());
            }
        }
        crate::bytes::push_all(&mut out, bytes);
    } else {
        out.push(0x68);
        out.push(0x65);
        out.push(0x78);
        out.push(0x3A);
        proof {
            assert(out@ =~= hex_prefix_bytes());
        }
        crate::bytes::push_hex_bytes(&mut out, bytes);
    }
    proof {
        if spec_u8_form(bytes@) && !spec_ambiguous_start(bytes@) {
            assert(out@ =~= bytes@);
        }
    }
    out
}

/// Within each human form, the rendering is injective: two distinct byte
/// strings rendered in the same form never collide.
pub proof fn lemma_render_human_injective(a: Seq<u8>, b: Seq<u8>)
    requires
        spec_u8_form(a) == spec_u8_form(b),
        spec_ambiguous_start(a) == spec_ambiguous_start(b),
        spec_render_human(a) == spec_render_human(b),
    ensures
        a == b,
{
    if spec_u8_form(a) {
        if spec_ambiguous_start(a) {
            assert(a =~= (u8_prefix_bytes() + a).skip(3));
            assert(b =~= (u8_prefix_bytes() + b).skip(3));
        }
    } else {
        assert(hex_bytes_of(a) =~= (hex_prefix_bytes() + hex_bytes_of(a)).skip(4));
        assert(hex_bytes_of(b) =~= (hex_prefix_bytes() + hex_bytes_of(b)).skip(4));
        crate::bytes::lemma_hex_injective(a, b);
    }
}

} // verus!
