//! Identifier encoding for JSON output.
//!
//! Bytes that are valid UTF-8 free of ASCII control bytes render as
//! `u8:<utf8>`; everything else renders as `hex:<lowercase hex>`. The
//! prefix is always present, so the form is unambiguous.

use vstd::prelude::*;

use crate::bytes::{hex_bytes_of, spec_has_control, spec_valid_utf8};

verus! {

/// The bytes of the `u8:` prefix.
pub open spec fn u8_prefix_bytes() -> Seq<u8> {
    seq![0x75u8, 0x38, 0x3A]
}

/// The bytes of the `hex:` prefix.
pub open spec fn hex_prefix_bytes() -> Seq<u8> {
    seq![0x68u8, 0x65, 0x78, 0x3A]
}

/// Whether the bytes take the `u8:` form: valid UTF-8 with no ASCII
/// control byte (0x00–0x1F, 0x7F).
pub open spec fn spec_u8_form(s: Seq<u8>) -> bool {
    spec_valid_utf8(s) && !spec_has_control(s)
}

/// The JSON identifier encoding of a byte string.
pub open spec fn spec_encode_json(s: Seq<u8>) -> Seq<u8> {
    if spec_u8_form(s) {
        u8_prefix_bytes() + s
    } else {
        hex_prefix_bytes() + hex_bytes_of(s)
    }
}

/// Encode an identifier for JSON output (always prefixed).
pub fn encode_identifier_json(bytes: &[u8]) -> (r: Vec<u8>)
    ensures
        r@ == spec_encode_json(bytes@),
{
    let mut out: Vec<u8> = Vec::new();
    if crate::bytes::is_valid_utf8(bytes) && !crate::bytes::has_ascii_control(bytes) {
        out.push(0x75);
        out.push(0x38);
        out.push(0x3A);
        proof {
            assert(out@ =~= u8_prefix_bytes());
        }
        crate::bytes::push_all(&mut out, bytes);
    } else {
        out.push(0x68);
        out.push(0x65);
        out.push(0x78);
        out.push(0x3A);
        proof {
            assert(out@ =~= hex_prefix_bytes());
        }
        crate::bytes::push_hex_bytes(&mut out, bytes);
    }
    out
}

/// Within the `u8:` form, the encoding is injective.
pub proof fn lemma_encode_json_u8_injective(a: Seq<u8>, b: Seq<u8>)
    requires
        spec_u8_form(a),
        spec_u8_form(b),
        spec_encode_json(a) == spec_encode_json(b),
    ensures
        a == b,
{
    assert(a =~= (u8_prefix_bytes() + a).skip(3));
    assert(b =~= (u8_prefix_bytes() + b).skip(3));
}

/// Within the `hex:` form, the encoding is injective.
pub proof fn lemma_encode_json_hex_injective(a: Seq<u8>, b: Seq<u8>)
    requires
        !spec_u8_form(a),
        !spec_u8_form(b),
        spec_encode_json(a) == spec_encode_json(b),
    ensures
        a == b,
{
    assert(hex_bytes_of(a) =~= (hex_prefix_bytes() + hex_bytes_of(a)).skip(4));
    assert(hex_bytes_of(b) =~= (hex_prefix_bytes() + hex_bytes_of(b)).skip(4));
    crate::bytes::lemma_hex_injective(a, b);
}

} // verus!
