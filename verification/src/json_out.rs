//! The versioned JSON object: one `rvl.v0` document per run, built as
//! bytes with standard JSON string escaping. Numbers that need
//! floating-point formatting arrive pre-rendered and are spliced in as
//! JSON number tokens.

use vstd::prelude::*;
use vstd::string::StringSliceAdditionalSpecFns;

use crate::bytes::{dec_digits_of, spec_hex_digit, views_of};
use crate::codes::{spec_code_bytes, spec_reason_bytes, RefusalCode};
use crate::details::{
    spec_hint_bytes, DialectSuggestion, EncodingIssue, FileSide, HeadersIssue, RefusalKind,
};
use crate::ident_json::spec_encode_json;

verus! {

/// The escape of one byte inside a JSON string.
pub open spec fn spec_esc_byte(b: u8) -> Seq<u8> {
    if b == 0x22 {
        "\\\"".spec_bytes()
    } else if b == 0x5C {
        "\\\\".spec_bytes()
    } else if b == 0x08 {
        "\\b".spec_bytes()
    } else if b == 0x0C {
        "\\f".spec_bytes()
    } else if b == 0x0A {
        "\\n".spec_bytes()
    } else if b == 0x0D {
        "\\r".spec_bytes()
    } else if b == 0x09 {
        "\\t".spec_bytes()
    } else if b < 0x20 {
        "\\u00".spec_bytes() + seq![spec_hex_digit(b / 16), spec_hex_digit(b % 16)]
    } else {
        seq![b]
    }
}

/// The JSON string escape of a byte sequence.
pub open spec fn spec_esc(s: Seq<u8>) -> Seq<u8>
    decreases s.len(),
{
    if s.len() == 0 {
        Seq::<u8>::empty()
    } else {
        spec_esc_byte(s[0]) + spec_esc(s.drop_first())
    }
}

/// A quoted JSON string.
pub open spec fn spec_json_str(s: Seq<u8>) -> Seq<u8> {
    seq![0x22u8] + spec_esc(s) + seq![0x22u8]
}

/// Append the escape of one byte.
fn push_esc_byte(out: &mut Vec<u8>, b: u8)
    ensures
        final(out)@ == old(out)@ + spec_esc_byte(b),
{
    if b == 0x22 {
        crate::bytes::push_str_bytes(out, "\\\"");
    } else if b == 0x5C {
        crate::bytes::push_str_bytes(out, "\\\\");
    } else if b == 0x08 {
        crate::bytes::push_str_bytes(out, "\\b");
    } else if b == 0x0C {
        crate::bytes::push_str_bytes(out, "\\f");
    } else if b == 0x0A {
        crate::bytes::push_str_bytes(out, "\\n");
    } else if b == 0x0D {
        crate::bytes::push_str_bytes(out, "\\r");
    } else if b == 0x09 {
        crate::bytes::push_str_bytes(out, "\\t");
    } else if b < 0x20 {
        crate::bytes::push_str_bytes(out, "\\u00");
        let hi = b / 16;
        let lo = b % 16;
        out.push(
            if hi < 10 {
                0x30 + hi
            } else {
                0x61 + (hi - 10)
            },
        );
        out.push(
            if lo < 10 {
                0x30 + lo
            } else {
                0x61 + (lo - 10)
            },
        );
        proof {
            assert(out@ =~= old(out)@ + ("\\u00".spec_bytes() + seq![
                spec_hex_digit(b / 16),
                spec_hex_digit(b % 16),
            ]));
        }
    } else {
        out.push(b);
        proof {
            assert(out@ =~= old(out)@ + seq![b]);
        }
    }
}

/// Append a quoted, escaped JSON string.
pub fn push_json_str(out: &mut Vec<u8>, s: &[u8])
    ensures
        final(out)@ == old(out)@ + spec_json_str(s@),
{
    out.push(0x22);
    proof {
        assert(out@ =~= old(out)@ + seq![0x22u8]);
        assert(s@.skip(0) =~= s@);
    }
    let n = s.len();
    let mut i: usize = 0;
    while i < n
        invariant
            0 <= i <= n,
            n == s@.len(),
            out@ + spec_esc(s@.skip(i as int)) == old(out)@ + seq![0x22u8] + spec_esc(s@),
        decreases n - i,
    {
        let ghost rest = s@.skip(i as int);
        proof {
            assert(rest[0] == s@[i as int]);
            assert(rest.drop_first() =~= s@.skip(i + 1));
        }
        push_esc_byte(out, s[i]);
        proof {
            assert(out@ + spec_esc(s@.skip(i + 1)) =~= old(out)@ + seq![0x22u8] + spec_esc(s@));
        }
        i = i + 1;
    }
    proof {
        assert(spec_esc(s@.skip(n as int)) =~= Seq::<u8>::empty());
        assert(out@ =~= old(out)@ + seq![0x22u8] + spec_esc(s@));
    }
    out.push(0x22);
    proof {
        assert(out@ =~= old(out)@ + spec_json_str(s@));
    }
}

/// Append a JSON-encoded identifier string.
pub fn push_ident_json(out: &mut Vec<u8>, s: &[u8])
    ensures
        final(out)@ == old(out)@ + spec_json_str(spec_encode_json(s@)),
{
    let enc = crate::ident_json::encode_identifier_json(s);
    push_json_str(out, enc.as_slice());
}

/// Append a JSON number token for an unsigned count.
pub fn push_json_u64(out: &mut Vec<u8>, v: u64)
    ensures
        final(out)@ == old(out)@ + dec_digits_of(v as nat),
{
    crate::bytes::push_dec_u64(out, v);
}

/// A JSON number token or `null` for an optional count.
pub open spec fn spec_opt_u64(v: Option<u64>) -> Seq<u8> {
    match v {
        Some(x) => dec_digits_of(x as nat),
        None => "null".spec_bytes(),
    }
}

/// Append a JSON number token or `null`.
pub fn push_opt_u64(out: &mut Vec<u8>, v: Option<u64>)
    ensures
        final(out)@ == old(out)@ + spec_opt_u64(v),
{
    match v {
        Some(x) => crate::bytes::push_dec_u64(out, x),
        None => crate::bytes::push_str_bytes(out, "null"),
    }
}

/// A pre-rendered number token or `null`.
pub open spec fn spec_opt_num(v: Option<Vec<u8>>) -> Seq<u8> {
    match v {
        Some(x) => x@,
        None => "null".spec_bytes(),
    }
}

/// Append a pre-rendered number token or `null`.
pub fn push_opt_num(out: &mut Vec<u8>, v: &Option<Vec<u8>>)
    ensures
        final(out)@ == old(out)@ + spec_opt_num(*v),
{
    match v {
        Some(x) => crate::bytes::push_all(out, x.as_slice()),
        None => crate::bytes::push_str_bytes(out, "null"),
    }
}

/// A JSON array of encoded identifier strings.
pub open spec fn spec_ident_array(s: Seq<Seq<u8>>) -> Seq<u8>
    decreases s.len(),
{
    if s.len() == 0 {
        seq![0x5Bu8, 0x5Du8]
    } else if s.len() == 1 {
        seq![0x5Bu8] + spec_json_str(spec_encode_json(s[0])) + seq![0x5Du8]
    } else {
        spec_ident_array(s.drop_last()).drop_last() + seq![0x2Cu8] + spec_json_str(
            spec_encode_json(s[s.len() - 1]),
        ) + seq![0x5Du8]
    }
}

/// An identifier array rendering is never shorter than its brackets.
proof fn lemma_ident_array_len(s: Seq<Seq<u8>>)
    ensures
        spec_ident_array(s).len() >= 2,
    decreases s.len(),
{
    if s.len() > 1 {
        lemma_ident_array_len(s.drop_last());
    }
}

/// Append a JSON array of encoded identifier strings.
pub fn push_ident_array(out: &mut Vec<u8>, items: &Vec<Vec<u8>>)
    ensures
        final(out)@ == old(out)@ + spec_ident_array(views_of(items@)),
{
    let n = items.len();
    out.push(0x5B);
    let mut i: usize = 0;
    proof {
        assert(out@ =~= old(out)@ + seq![0x5Bu8]);
    }
    while i < n
        invariant
            0 <= i <= n,
            n == items@.len(),
            i == 0 ==> out@ == old(out)@ + seq![0x5Bu8],
            i > 0 ==> out@ + seq![0x5Du8] == old(out)@ + spec_ident_array(
                views_of(items@).take(i as int),
            ),
        decreases n - i,
    {
        proof {
            assert(views_of(items@)[i as int] == items@[i as int]@);
        }
        let ghost pre = out@;
        if i > 0 {
            proof {
                lemma_ident_array_len(views_of(items@).take(i as int));
                let a = spec_ident_array(views_of(items@).take(i as int));
                assert(pre =~= (old(out)@ + a).drop_last());
                assert((old(out)@ + a).drop_last() =~= old(out)@ + a.drop_last());
            }
            out.push(0x2C);
        }
        push_ident_json(out, items[i].as_slice());
        proof {
            let sv = views_of(items@);
            let t = sv.take(i + 1);
            assert(t.drop_last() =~= sv.take(i as int));
            assert(t[t.len() - 1] == sv[i as int]);
            if i == 0 {
                assert(spec_ident_array(t) =~= seq![0x5Bu8] + spec_json_str(
                    spec_encode_json(sv[0]),
                ) + seq![0x5Du8]);
                assert(out@ + seq![0x5Du8] =~= old(out)@ + spec_ident_array(t));
            } else {
                let a = spec_ident_array(sv.take(i as int));
                assert(pre =~= old(out)@ + a.drop_last());
                assert(out@ =~= old(out)@ + a.drop_last() + seq![0x2Cu8] + spec_json_str(
                    spec_encode_json(sv[i as int]),
                ));
                assert(spec_ident_array(t) == a.drop_last() + seq![0x2Cu8] + spec_json_str(
                    spec_encode_json(sv[i as int]),
                ) + seq![0x5Du8]);
                assert(out@ + seq![0x5Du8] =~= old(out)@ + spec_ident_array(t));
            }
        }
        i = i + 1;
    }
    out.push(0x5D);
    proof {
        if n == 0 {
            assert(out@ =~= old(out)@ + seq![0x5Bu8, 0x5Du8]);
        } else {
            assert(views_of(items@).take(n as int) =~= views_of(items@));
        }
    }
}


/// The JSON spelling of a file side.
pub open spec fn spec_side_str(f: FileSide) -> Seq<u8> {
    match f {
        FileSide::Old => spec_json_str("old".spec_bytes()),
        FileSide::New => spec_json_str("new".spec_bytes()),
    }
}

fn push_side(out: &mut Vec<u8>, f: FileSide)
    ensures
        final(out)@ == old(out)@ + spec_side_str(f),
{
    match f {
        FileSide::Old => push_json_str(out, "old".as_bytes()),
        FileSide::New => push_json_str(out, "new".as_bytes()),
    }
}

/// A one-byte JSON string (used for delimiter characters).
pub open spec fn spec_byte_str(b: u8) -> Seq<u8> {
    spec_json_str(seq![b])
}

fn push_byte_str(out: &mut Vec<u8>, b: u8)
    ensures
        final(out)@ == old(out)@ + spec_byte_str(b),
{
    let mut one: Vec<u8> = Vec::new();
    one.push(b);
    proof {
        assert(one@ =~= seq![b]);
    }
    push_json_str(out, one.as_slice());
}

/// The tied-delimiters array: one-character strings.
pub open spec fn spec_delim_array(s: Seq<u8>) -> Seq<u8>
    decreases s.len(),
{
    if s.len() == 0 {
        seq![0x5Bu8, 0x5Du8]
    } else if s.len() == 1 {
        seq![0x5Bu8] + spec_byte_str(s[0]) + seq![0x5Du8]
    } else {
        spec_delim_array(s.drop_last()).drop_last() + seq![0x2Cu8] + spec_byte_str(
            s[s.len() - 1],
        ) + seq![0x5Du8]
    }
}

proof fn lemma_delim_array_len(s: Seq<u8>)
    ensures
        spec_delim_array(s).len() >= 2,
    decreases s.len(),
{
    if s.len() > 1 {
        lemma_delim_array_len(s.drop_last());
    }
}

fn push_delim_array(out: &mut Vec<u8>, items: &Vec<u8>)
    ensures
        final(out)@ == old(out)@ + spec_delim_array(items@),
{
    let n = items.len();
    out.push(0x5B);
    let mut i: usize = 0;
    proof {
        assert(out@ =~= old(out)@ + seq![0x5Bu8]);
    }
    while i < n
        invariant
            0 <= i <= n,
            n == items@.len(),
            i == 0 ==> out@ == old(out)@ + seq![0x5Bu8],
            i > 0 ==> out@ + seq![0x5Du8] == old(out)@ + spec_delim_array(items@.take(i as int)),
        decreases n - i,
    {
        let ghost pre = out@;
        if i > 0 {
            proof {
                lemma_delim_array_len(items@.take(i as int));
                let a = spec_delim_array(items@.take(i as int));
                assert(pre =~= (old(out)@ + a).drop_last());
                assert((old(out)@ + a).drop_last() =~= old(out)@ + a.drop_last());
            }
            out.push(0x2C);
        }
        push_byte_str(out, items[i]);
        proof {
            let t = items@.take(i + 1);
            assert(t.drop_last() =~= items@.take(i as int));
            assert(t[t.len() - 1] == items@[i as int]);
            if i == 0 {
                assert(spec_delim_array(t) =~= seq![0x5Bu8] + spec_byte_str(items@[0]) + seq![
                    0x5Du8,
                ]);
                assert(out@ + seq![0x5Du8] =~= old(out)@ + spec_delim_array(t));
            } else {
                let a = spec_delim_array(items@.take(i as int));
                assert(out@ =~= old(out)@ + a.drop_last() + seq![0x2Cu8] + spec_byte_str(
                    items@[i as int],
                ));
                assert(out@ + seq![0x5Du8] =~= old(out)@ + spec_delim_array(t));
            }
        }
        i = i + 1;
    }
    out.push(0x5D);
    proof {
        if n == 0 {
            assert(out@ =~= old(out)@ + seq![0x5Bu8, 0x5Du8]);
        } else {
            assert(items@.take(n as int) =~= items@);
        }
    }
}

/// The code-specific `detail` object of a refusal, keys in alphabetical
/// order as a map-backed serializer writes them.
pub open spec fn spec_detail_obj(kind: RefusalKind) -> Seq<u8> {
    match kind {
        RefusalKind::Io { file, error } => "{\"error\":".spec_bytes() + spec_json_str(error@)
            + ",\"file\":".spec_bytes() + spec_side_str(file) + seq![0x7Du8],
        RefusalKind::Encoding { file, issue } => "{\"file\":".spec_bytes() + spec_side_str(file)
            + ",\"issue\":".spec_bytes() + (match issue {
            EncodingIssue::Utf16 => spec_json_str("utf16".spec_bytes()),
            EncodingIssue::Utf32 => spec_json_str("utf32".spec_bytes()),
            EncodingIssue::NulByte => spec_json_str("nul_byte".spec_bytes()),
        }) + seq![0x7Du8],
        RefusalKind::CsvParse { file, line, column } => "{\"column\":".spec_bytes() + spec_opt_u64(
            column,
        ) + ",\"file\":".spec_bytes() + spec_side_str(file) + ",\"line\":".spec_bytes()
            + spec_opt_u64(line) + seq![0x7Du8],
        RefusalKind::Headers { file, issue } => match issue {
            HeadersIssue::MissingHeader => "{\"file\":".spec_bytes() + spec_side_str(file)
                + ",\"issue\":".spec_bytes() + spec_json_str("missing_header".spec_bytes())
                + seq![0x7Du8],
            HeadersIssue::Duplicate { name } => "{\"file\":".spec_bytes() + spec_side_str(file)
                + ",\"issue\":".spec_bytes() + spec_json_str("duplicate".spec_bytes())
                + ",\"name\":".spec_bytes() + spec_json_str(spec_encode_json(name@)) + seq![
                0x7Du8,
            ],
            HeadersIssue::ExtraFields { record } => "{\"file\":".spec_bytes() + spec_side_str(
                file,
            ) + ",\"issue\":".spec_bytes() + spec_json_str("extra_fields".spec_bytes())
                + ",\"record\":".spec_bytes() + dec_digits_of(record as nat) + seq![0x7Du8],
        },
        RefusalKind::NoKey { key_column } => "{\"key_column\":".spec_bytes() + spec_json_str(
            spec_encode_json(key_column@),
        ) + seq![0x7Du8],
        RefusalKind::KeyEmpty { file, record, key_column } => "{\"column\":".spec_bytes()
            + spec_json_str(spec_encode_json(key_column@)) + ",\"file\":".spec_bytes()
            + spec_side_str(file) + ",\"record\":".spec_bytes() + dec_digits_of(record as nat)
            + seq![0x7Du8],
        RefusalKind::KeyDup { file, record, key_value } => "{\"file\":".spec_bytes()
            + spec_side_str(file) + ",\"key\":".spec_bytes() + spec_json_str(
            spec_encode_json(key_value@),
        ) + ",\"record\":".spec_bytes() + dec_digits_of(record as nat) + seq![0x7Du8],
        RefusalKind::KeyMismatch { missing_in_new, extra_in_new, missing_samples, extra_samples } =>
            "{\"extra_in_new\":".spec_bytes() + dec_digits_of(extra_in_new as nat)
            + ",\"extra_samples\":".spec_bytes() + spec_ident_array(views_of(extra_samples@))
            + ",\"missing_in_new\":".spec_bytes() + dec_digits_of(missing_in_new as nat)
            + ",\"missing_samples\":".spec_bytes() + spec_ident_array(views_of(missing_samples@))
            + seq![0x7Du8],
        RefusalKind::RowCount { rows_old, rows_new, suggested_keys } => "{\"rows_new\":"
            .spec_bytes() + dec_digits_of(rows_new as nat) + ",\"rows_old\":".spec_bytes()
            + dec_digits_of(rows_old as nat) + ",\"suggested_keys\":".spec_bytes()
            + spec_ident_array(views_of(suggested_keys@)) + seq![0x7Du8],
        RefusalKind::NeedKey { suggested_keys } => "{\"suggested_keys\":".spec_bytes()
            + spec_ident_array(views_of(suggested_keys@)) + seq![0x7Du8],
        RefusalKind::Dialect { file, tied_delimiters, suggestion } => "{\"file\":".spec_bytes()
            + spec_side_str(file) + ",\"suggestion\":".spec_bytes() + (match suggestion {
            DialectSuggestion::ForceDelimiter(hint) => spec_json_str(
                "--delimiter ".spec_bytes() + spec_hint_bytes(hint),
            ),
            DialectSuggestion::SepDirective(d) => spec_json_str("sep=".spec_bytes() + seq![d]),
        }) + ",\"tied_delimiters\":".spec_bytes() + spec_delim_array(tied_delimiters@) + seq![
            0x7Du8,
        ],
        RefusalKind::MixedTypes { file, record, column, value, key_value } => {
            match key_value {
                Some(k) => "{\"column\":".spec_bytes() + spec_json_str(spec_encode_json(column@))
                    + ",\"file\":".spec_bytes() + spec_side_str(file) + ",\"key\":".spec_bytes()
                    + spec_json_str(spec_encode_json(k@)) + ",\"record\":".spec_bytes()
                    + dec_digits_of(record as nat) + ",\"value\":".spec_bytes() + spec_json_str(
                    spec_encode_json(value@),
                ) + seq![0x7Du8],
                None => "{\"column\":".spec_bytes() + spec_json_str(spec_encode_json(column@))
                    + ",\"file\":".spec_bytes() + spec_side_str(file)
                    + ",\"record\":".spec_bytes() + dec_digits_of(record as nat)
                    + ",\"value\":".spec_bytes() + spec_json_str(spec_encode_json(value@))
                    + seq![0x7Du8],
            }
        },
        RefusalKind::NoNumeric => seq![0x7Bu8, 0x7Du8],
        RefusalKind::Missingness { file, record, column, value, key_value } => {
            match key_value {
                Some(k) => "{\"column\":".spec_bytes() + spec_json_str(spec_encode_json(column@))
                    + ",\"file\":".spec_bytes() + spec_side_str(file) + ",\"key\":".spec_bytes()
                    + spec_json_str(spec_encode_json(k@)) + ",\"record\":".spec_bytes()
                    + dec_digits_of(record as nat) + ",\"value\":".spec_bytes() + spec_json_str(
                    spec_encode_json(value@),
                ) + seq![0x7Du8],
                None => "{\"column\":".spec_bytes() + spec_json_str(spec_encode_json(column@))
                    + ",\"file\":".spec_bytes() + spec_side_str(file)
                    + ",\"record\":".spec_bytes() + dec_digits_of(record as nat)
                    + ",\"value\":".spec_bytes() + spec_json_str(spec_encode_json(value@))
                    + seq![0x7Du8],
            }
        },
        RefusalKind::Diffuse { top_k_coverage_pct, threshold_pct } => "{\"threshold\":"
            .spec_bytes() + threshold_pct@ + ",\"top_k_coverage\":".spec_bytes()
            + top_k_coverage_pct@ + seq![0x7Du8],
    }
}

/// Append the code-specific `detail` object of a refusal.
pub fn push_detail_obj(out: &mut Vec<u8>, kind: &RefusalKind)
    ensures
        final(out)@ == old(out)@ + spec_detail_obj(*kind),
{
    match kind {
        RefusalKind::Io { .. } => push_detail_io(out, kind),
        RefusalKind::Encoding { .. } => push_detail_encoding(out, kind),
        RefusalKind::CsvParse { .. } => push_detail_csvparse(out, kind),
        RefusalKind::Headers { .. } => push_detail_headers(out, kind),
        RefusalKind::NoKey { .. } => push_detail_nokey(out, kind),
        RefusalKind::KeyEmpty { .. } => push_detail_keyempty(out, kind),
        RefusalKind::KeyDup { .. } => push_detail_keydup(out, kind),
        RefusalKind::KeyMismatch { .. } => push_detail_keymismatch(out, kind),
        RefusalKind::RowCount { .. } => push_detail_rowcount(out, kind),
        RefusalKind::NeedKey { .. } => push_detail_needkey(out, kind),
        RefusalKind::Dialect { .. } => push_detail_dialect(out, kind),
        RefusalKind::MixedTypes { .. } => push_detail_mixedtypes(out, kind),
        RefusalKind::NoNumeric => push_detail_nonumeric(out, kind),
        RefusalKind::Missingness { .. } => push_detail_missingness(out, kind),
        RefusalKind::Diffuse { .. } => push_detail_diffuse(out, kind),
    }
}

fn push_detail_io(out: &mut Vec<u8>, kind: &RefusalKind)
    requires
        kind matches RefusalKind::Io { .. },
    ensures
        final(out)@ == old(out)@ + spec_detail_obj(*kind),
{
    match kind {
        RefusalKind::Io { file, error } => {
            crate::bytes::push_str_bytes(out, "{\"error\":");
            push_json_str(out, error.as_slice());
            crate::bytes::push_str_bytes(out, ",\"file\":");
            push_side(out, *file);
            out.push(0x7D);
            proof {
                assert(out@ =~= old(out)@ + spec_detail_obj(*kind));
            }
        },
        _ => {
            proof {
                assert(false);
            }
        },
    }
}

fn push_detail_encoding(out: &mut Vec<u8>, kind: &RefusalKind)
    requires
        kind matches RefusalKind::Encoding { .. },
    ensures
        final(out)@ == old(out)@ + spec_detail_obj(*kind),
{
    match kind {
        RefusalKind::Encoding { file, issue } => {
            crate::bytes::push_str_bytes(out, "{\"file\":");
            push_side(out, *file);
            crate::bytes::push_str_bytes(out, ",\"issue\":");
            match issue {
                EncodingIssue::Utf16 => push_json_str(out, "utf16".as_bytes()),
                EncodingIssue::Utf32 => push_json_str(out, "utf32".as_bytes()),
                EncodingIssue::NulByte => push_json_str(out, "nul_byte".as_bytes()),
            }
            out.push(0x7D);
            proof {
                assert(out@ =~= old(out)@ + spec_detail_obj(*kind));
            }
        },
        _ => {
            proof {
                assert(false);
            }
        },
    }
}

fn push_detail_csvparse(out: &mut Vec<u8>, kind: &RefusalKind)
    requires
        kind matches RefusalKind::CsvParse { .. },
    ensures
        final(out)@ == old(out)@ + spec_detail_obj(*kind),
{
    match kind {
        RefusalKind::CsvParse { file, line, column } => {
            crate::bytes::push_str_bytes(out, "{\"column\":");
            push_opt_u64(out, *column);
            crate::bytes::push_str_bytes(out, ",\"file\":");
            push_side(out, *file);
            crate::bytes::push_str_bytes(out, ",\"line\":");
            push_opt_u64(out, *line);
            out.push(0x7D);
            proof {
                assert(out@ =~= old(out)@ + spec_detail_obj(*kind));
            }
        },
        _ => {
            proof {
                assert(false);
            }
        },
    }
}

#[verifier::rlimit(100)]
#[verifier::spinoff_prover]
fn push_detail_headers(out: &mut Vec<u8>, kind: &RefusalKind)
    requires
        kind matches RefusalKind::Headers { .. },
    ensures
        final(out)@ == old(out)@ + spec_detail_obj(*kind),
{
    match kind {
        RefusalKind::Headers { file, issue } => {
            crate::bytes::push_str_bytes(out, "{\"file\":");
            push_side(out, *file);
            crate::bytes::push_str_bytes(out, ",\"issue\":");
            match issue {
                HeadersIssue::MissingHeader => {
                    push_json_str(out, "missing_header".as_bytes());
                },
                HeadersIssue::Duplicate { name } => {
                    push_json_str(out, "duplicate".as_bytes());
                    crate::bytes::push_str_bytes(out, ",\"name\":");
                    push_ident_json(out, name.as_slice());
                },
                HeadersIssue::ExtraFields { record } => {
                    push_json_str(out, "extra_fields".as_bytes());
                    crate::bytes::push_str_bytes(out, ",\"record\":");
                    push_json_u64(out, *record);
                },
            }
            out.push(0x7D);
            proof {
                assert(out@ =~= old(out)@ + spec_detail_obj(*kind));
            }
        },
        _ => {
            proof {
                assert(false);
            }
        },
    }
}

fn push_detail_nokey(out: &mut Vec<u8>, kind: &RefusalKind)
    requires
        kind matches RefusalKind::NoKey { .. },
    ensures
        final(out)@ == old(out)@ + spec_detail_obj(*kind),
{
    match kind {
        RefusalKind::NoKey { key_column } => {
            crate::bytes::push_str_bytes(out, "{\"key_column\":");
            push_ident_json(out, key_column.as_slice());
            out.push(0x7D);
            proof {
                assert(out@ =~= old(out)@ + spec_detail_obj(*kind));
            }
        },
        _ => {
            proof {
                assert(false);
            }
        },
    }
}

fn push_detail_keyempty(out: &mut Vec<u8>, kind: &RefusalKind)
    requires
        kind matches RefusalKind::KeyEmpty { .. },
    ensures
        final(out)@ == old(out)@ + spec_detail_obj(*kind),
{
    match kind {
        RefusalKind::KeyEmpty { file, record, key_column } => {
            crate::bytes::push_str_bytes(out, "{\"column\":");
            push_ident_json(out, key_column.as_slice());
            crate::bytes::push_str_bytes(out, ",\"file\":");
            push_side(out, *file);
            crate::bytes::push_str_bytes(out, ",\"record\":");
            push_json_u64(out, *record);
            out.push(0x7D);
            proof {
                assert(out@ =~= old(out)@ + spec_detail_obj(*kind));
            }
        },
        _ => {
            proof {
                assert(false);
            }
        },
    }
}

fn push_detail_keydup(out: &mut Vec<u8>, kind: &RefusalKind)
    requires
        kind matches RefusalKind::KeyDup { .. },
    ensures
        final(out)@ == old(out)@ + spec_detail_obj(*kind),
{
    match kind {
        RefusalKind::KeyDup { file, record, key_value } => {
            crate::bytes::push_str_bytes(out, "{\"file\":");
            push_side(out, *file);
            crate::bytes::push_str_bytes(out, ",\"key\":");
            push_ident_json(out, key_value.as_slice());
            crate::bytes::push_str_bytes(out, ",\"record\":");
            push_json_u64(out, *record);
            out.push(0x7D);
            proof {
                assert(out@ =~= old(out)@ + spec_detail_obj(*kind));
            }
        },
        _ => {
            proof {
                assert(false);
            }
        },
    }
}

#[verifier::rlimit(100)]
#[verifier::spinoff_prover]
fn push_detail_keymismatch(out: &mut Vec<u8>, kind: &RefusalKind)
    requires
        kind matches RefusalKind::KeyMismatch { .. },
    ensures
        final(out)@ == old(out)@ + spec_detail_obj(*kind),
{
    match kind {
        RefusalKind::KeyMismatch { missing_in_new, extra_in_new, missing_samples, extra_samples
        } => {
            crate::bytes::push_str_bytes(out, "{\"extra_in_new\":");
            push_json_u64(out, *extra_in_new as u64);
            crate::bytes::push_str_bytes(out, ",\"extra_samples\":");
            push_ident_array(out, extra_samples);
            crate::bytes::push_str_bytes(out, ",\"missing_in_new\":");
            push_json_u64(out, *missing_in_new as u64);
            crate::bytes::push_str_bytes(out, ",\"missing_samples\":");
            push_ident_array(out, missing_samples);
            out.push(0x7D);
            proof {
                assert(out@ =~= old(out)@ + spec_detail_obj(*kind));
            }
        },
        _ => {
            proof {
                assert(false);
            }
        },
    }
}

#[verifier::rlimit(100)]
#[verifier::spinoff_prover]
fn push_detail_rowcount(out: &mut Vec<u8>, kind: &RefusalKind)
    requires
        kind matches RefusalKind::RowCount { .. },
    ensures
        final(out)@ == old(out)@ + spec_detail_obj(*kind),
{
    match kind {
        RefusalKind::RowCount { rows_old, rows_new, suggested_keys } => {
            crate::bytes::push_str_bytes(out, "{\"rows_new\":");
            push_json_u64(out, *rows_new);
            crate::bytes::push_str_bytes(out, ",\"rows_old\":");
            push_json_u64(out, *rows_old);
            crate::bytes::push_str_bytes(out, ",\"suggested_keys\":");
            push_ident_array(out, suggested_keys);
            out.push(0x7D);
            proof {
                assert(out@ =~= old(out)@ + spec_detail_obj(*kind));
            }
        },
        _ => {
            proof {
                assert(false);
            }
        },
    }
}

fn push_detail_needkey(out: &mut Vec<u8>, kind: &RefusalKind)
    requires
        kind matches RefusalKind::NeedKey { .. },
    ensures
        final(out)@ == old(out)@ + spec_detail_obj(*kind),
{
    match kind {
        RefusalKind::NeedKey { suggested_keys } => {
            crate::bytes::push_str_bytes(out, "{\"suggested_keys\":");
            push_ident_array(out, suggested_keys);
            out.push(0x7D);
            proof {
                assert(out@ =~= old(out)@ + spec_detail_obj(*kind));
            }
        },
        _ => {
            proof {
                assert(false);
            }
        },
    }
}

#[verifier::rlimit(100)]
#[verifier::spinoff_prover]
fn push_detail_dialect(out: &mut Vec<u8>, kind: &RefusalKind)
    requires
        kind matches RefusalKind::Dialect { .. },
    ensures
        final(out)@ == old(out)@ + spec_detail_obj(*kind),
{
    match kind {
        RefusalKind::Dialect { file, tied_delimiters, suggestion } => {
            crate::bytes::push_str_bytes(out, "{\"file\":");
            push_side(out, *file);
            crate::bytes::push_str_bytes(out, ",\"suggestion\":");
            match suggestion {
                DialectSuggestion::ForceDelimiter(hint) => {
                    let mut txt: Vec<u8> = Vec::new();
                    crate::bytes::push_str_bytes(&mut txt, "--delimiter ");
                    crate::details::push_hint(&mut txt, *hint);
                    push_json_str(out, txt.as_slice());
                },
                DialectSuggestion::SepDirective(d) => {
                    let mut txt: Vec<u8> = Vec::new();
                    crate::bytes::push_str_bytes(&mut txt, "sep=");
                    txt.push(*d);
                    proof {
                        assert(txt@ =~= "sep=".spec_bytes() + seq![*d]);
                    }
                    push_json_str(out, txt.as_slice());
                },
            }
            crate::bytes::push_str_bytes(out, ",\"tied_delimiters\":");
            push_delim_array(out, tied_delimiters);
            out.push(0x7D);
            proof {
                assert(out@ =~= old(out)@ + spec_detail_obj(*kind));
            }
        },
        _ => {
            proof {
                assert(false);
            }
        },
    }
}

#[verifier::rlimit(100)]
#[verifier::spinoff_prover]
fn push_detail_mixedtypes(out: &mut Vec<u8>, kind: &RefusalKind)
    requires
        kind matches RefusalKind::MixedTypes { .. },
    ensures
        final(out)@ == old(out)@ + spec_detail_obj(*kind),
{
    match kind {
        RefusalKind::MixedTypes { file, record, column, value, key_value } => {
            crate::bytes::push_str_bytes(out, "{\"column\":");
            push_ident_json(out, column.as_slice());
            crate::bytes::push_str_bytes(out, ",\"file\":");
            push_side(out, *file);
            match key_value {
                Some(k) => {
                    crate::bytes::push_str_bytes(out, ",\"key\":");
                    push_ident_json(out, k.as_slice());
                },
                None => {},
            }
            crate::bytes::push_str_bytes(out, ",\"record\":");
            push_json_u64(out, *record);
            crate::bytes::push_str_bytes(out, ",\"value\":");
            push_ident_json(out, value.as_slice());
            out.push(0x7D);
            proof {
                assert(out@ == old(out)@ + spec_detail_obj(*kind));
            }
        },
        _ => {
            proof {
                assert(false);
            }
        },
    }
}

fn push_detail_nonumeric(out: &mut Vec<u8>, kind: &RefusalKind)
    requires
        kind matches RefusalKind::NoNumeric,
    ensures
        final(out)@ == old(out)@ + spec_detail_obj(*kind),
{
    match kind {
        RefusalKind::NoNumeric => {
            out.push(0x7B);
            out.push(0x7D);
            proof {
                assert(out@ =~= old(out)@ + seq![0x7Bu8, 0x7Du8]);
            }
        },
        _ => {
            proof {
                assert(false);
            }
        },
    }
}

#[verifier::rlimit(100)]
#[verifier::spinoff_prover]
fn push_detail_missingness(out: &mut Vec<u8>, kind: &RefusalKind)
    requires
        kind matches RefusalKind::Missingness { .. },
    ensures
        final(out)@ == old(out)@ + spec_detail_obj(*kind),
{
    match kind {
        RefusalKind::Missingness { file, record, column, value, key_value } => {
            crate::bytes::push_str_bytes(out, "{\"column\":");
            push_ident_json(out, column.as_slice());
            crate::bytes::push_str_bytes(out, ",\"file\":");
            push_side(out, *file);
            match key_value {
                Some(k) => {
                    crate::bytes::push_str_bytes(out, ",\"key\":");
                    push_ident_json(out, k.as_slice());
                },
                None => {},
            }
            crate::bytes::push_str_bytes(out, ",\"record\":");
            push_json_u64(out, *record);
            crate::bytes::push_str_bytes(out, ",\"value\":");
            push_ident_json(out, value.as_slice());
            out.push(0x7D);
            proof {
                assert(out@ == old(out)@ + spec_detail_obj(*kind));
            }
        },
        _ => {
            proof {
                assert(false);
            }
        },
    }
}

fn push_detail_diffuse(out: &mut Vec<u8>, kind: &RefusalKind)
    requires
        kind matches RefusalKind::Diffuse { .. },
    ensures
        final(out)@ == old(out)@ + spec_detail_obj(*kind),
{
    match kind {
        RefusalKind::Diffuse { top_k_coverage_pct, threshold_pct } => {
            crate::bytes::push_str_bytes(out, "{\"threshold\":");
            crate::bytes::push_all(out, threshold_pct.as_slice());
            crate::bytes::push_str_bytes(out, ",\"top_k_coverage\":");
            crate::bytes::push_all(out, top_k_coverage_pct.as_slice());
            out.push(0x7D);
            proof {
                assert(out@ =~= old(out)@ + spec_detail_obj(*kind));
            }
        },
        _ => {
            proof {
                assert(false);
            }
        },
    }
}


/// The optional counts of a run, `null` before they are known.
#[derive(Debug, Clone, Copy, PartialEq, Eq, Structural)]
pub struct JsonCounts {
    pub rows_old: Option<u64>,
    pub rows_new: Option<u64>,
    pub rows_aligned: Option<u64>,
    pub columns_old: Option<u64>,
    pub columns_new: Option<u64>,
    pub columns_common: Option<u64>,
    pub columns_old_only: Option<u64>,
    pub columns_new_only: Option<u64>,
    pub numeric_columns: Option<u64>,
    pub numeric_cells_checked: Option<u64>,
    pub numeric_cells_changed: Option<u64>,
}

impl JsonCounts {
    /// All-null counts, for refusals raised before counting.
    pub fn unknown() -> (r: JsonCounts)
        ensures
            r == (JsonCounts {
                rows_old: None,
                rows_new: None,
                rows_aligned: None,
                columns_old: None,
                columns_new: None,
                columns_common: None,
                columns_old_only: None,
                columns_new_only: None,
                numeric_columns: None,
                numeric_cells_checked: None,
                numeric_cells_changed: None,
            }),
    {
        JsonCounts {
            rows_old: None,
            rows_new: None,
            rows_aligned: None,
            columns_old: None,
            columns_new: None,
            columns_common: None,
            columns_old_only: None,
            columns_new_only: None,
            numeric_columns: None,
            numeric_cells_checked: None,
            numeric_cells_changed: None,
        }
    }
}

/// One contributor row of the JSON output, numbers pre-rendered.
#[derive(Debug, Clone)]
pub struct JsonContributor {
    pub row_id: Vec<u8>,
    pub column: Vec<u8>,
    pub old_txt: Vec<u8>,
    pub new_txt: Vec<u8>,
    pub delta_txt: Vec<u8>,
    pub contribution_txt: Vec<u8>,
    pub share_txt: Vec<u8>,
    pub cumulative_txt: Vec<u8>,
}

/// Everything but the outcome-specific parts of the JSON object.
pub struct JsonContext {
    pub old_path: Vec<u8>,
    pub new_path: Vec<u8>,
    pub key_column: Option<Vec<u8>>,
    pub dialect_old: Option<crate::human::DialectReceipt>,
    pub dialect_new: Option<crate::human::DialectReceipt>,
    pub threshold_txt: Vec<u8>,
    pub tolerance_txt: Vec<u8>,
    pub counts: JsonCounts,
    pub total_change_txt: Option<Vec<u8>>,
    pub max_abs_delta_txt: Option<Vec<u8>>,
    pub top_k_coverage_txt: Option<Vec<u8>>,
}

/// The outcome-specific parts of the JSON object.
pub enum JsonVerdict {
    RealChange(Vec<JsonContributor>),
    NoRealChange,
    Refusal(RefusalCode, RefusalKind),
}

/// One dialect side object or `null`.
pub open spec fn spec_dialect_side(d: Option<crate::human::DialectReceipt>) -> Seq<u8> {
    match d {
        None => "null".spec_bytes(),
        Some(dl) => "{\"delimiter\":".spec_bytes() + spec_byte_str(dl.delimiter)
            + ",\"quote\":".spec_bytes() + spec_byte_str(dl.quote) + ",\"escape\":".spec_bytes()
            + (match dl.escape {
            None => "null".spec_bytes(),
            Some(e) => spec_byte_str(e),
        }) + seq![0x7Du8],
    }
}

fn push_dialect_side(out: &mut Vec<u8>, d: &Option<crate::human::DialectReceipt>)
    ensures
        final(out)@ == old(out)@ + spec_dialect_side(*d),
{
    match d {
        None => crate::bytes::push_str_bytes(out, "null"),
        Some(dl) => {
            crate::bytes::push_str_bytes(out, "{\"delimiter\":");
            push_byte_str(out, dl.delimiter);
            crate::bytes::push_str_bytes(out, ",\"quote\":");
            push_byte_str(out, dl.quote);
            crate::bytes::push_str_bytes(out, ",\"escape\":");
            match dl.escape {
                None => crate::bytes::push_str_bytes(out, "null"),
                Some(e) => push_byte_str(out, e),
            }
            out.push(0x7D);
            proof {
                assert(out@ =~= old(out)@ + spec_dialect_side(*d));
            }
        },
    }
}

/// The counts object.
pub open spec fn spec_counts_obj(c: JsonCounts) -> Seq<u8> {
    "{\"rows_old\":".spec_bytes() + spec_opt_u64(c.rows_old) + ",\"rows_new\":".spec_bytes()
        + spec_opt_u64(c.rows_new) + ",\"rows_aligned\":".spec_bytes() + spec_opt_u64(
        c.rows_aligned,
    ) + ",\"columns_old\":".spec_bytes() + spec_opt_u64(c.columns_old)
        + ",\"columns_new\":".spec_bytes() + spec_opt_u64(c.columns_new)
        + ",\"columns_common\":".spec_bytes() + spec_opt_u64(c.columns_common)
        + ",\"columns_old_only\":".spec_bytes() + spec_opt_u64(c.columns_old_only)
        + ",\"columns_new_only\":".spec_bytes() + spec_opt_u64(c.columns_new_only)
        + ",\"numeric_columns\":".spec_bytes() + spec_opt_u64(c.numeric_columns)
        + ",\"numeric_cells_checked\":".spec_bytes() + spec_opt_u64(c.numeric_cells_checked)
        + ",\"numeric_cells_changed\":".spec_bytes() + spec_opt_u64(c.numeric_cells_changed)
        + seq![0x7Du8]
}

#[verifier::rlimit(100)]
#[verifier::spinoff_prover]
fn push_counts_obj(out: &mut Vec<u8>, c: &JsonCounts)
    ensures
        final(out)@ == old(out)@ + spec_counts_obj(*c),
{
    crate::bytes::push_str_bytes(out, "{\"rows_old\":");
    push_opt_u64(out, c.rows_old);
    crate::bytes::push_str_bytes(out, ",\"rows_new\":");
    push_opt_u64(out, c.rows_new);
    crate::bytes::push_str_bytes(out, ",\"rows_aligned\":");
    push_opt_u64(out, c.rows_aligned);
    crate::bytes::push_str_bytes(out, ",\"columns_old\":");
    push_opt_u64(out, c.columns_old);
    crate::bytes::push_str_bytes(out, ",\"columns_new\":");
    push_opt_u64(out, c.columns_new);
    proof {
        assert(out@ =~= old(out)@ + ("{\"rows_old\":".spec_bytes() + spec_opt_u64(c.rows_old)
            + ",\"rows_new\":".spec_bytes() + spec_opt_u64(c.rows_new)
            + ",\"rows_aligned\":".spec_bytes() + spec_opt_u64(c.rows_aligned)
            + ",\"columns_old\":".spec_bytes() + spec_opt_u64(c.columns_old)
            + ",\"columns_new\":".spec_bytes() + spec_opt_u64(c.columns_new)));
    }
    crate::bytes::push_str_bytes(out, ",\"columns_common\":");
    push_opt_u64(out, c.columns_common);
    crate::bytes::push_str_bytes(out, ",\"columns_old_only\":");
    push_opt_u64(out, c.columns_old_only);
    crate::bytes::push_str_bytes(out, ",\"columns_new_only\":");
    push_opt_u64(out, c.columns_new_only);
    proof {
        assert(out@ =~= old(out)@ + ("{\"rows_old\":".spec_bytes() + spec_opt_u64(c.rows_old)
            + ",\"rows_new\":".spec_bytes() + spec_opt_u64(c.rows_new)
            + ",\"rows_aligned\":".spec_bytes() + spec_opt_u64(c.rows_aligned)
            + ",\"columns_old\":".spec_bytes() + spec_opt_u64(c.columns_old)
            + ",\"columns_new\":".spec_bytes() + spec_opt_u64(c.columns_new)
            + ",\"columns_common\":".spec_bytes() + spec_opt_u64(c.columns_common)
            + ",\"columns_old_only\":".spec_bytes() + spec_opt_u64(c.columns_old_only)
            + ",\"columns_new_only\":".spec_bytes() + spec_opt_u64(c.columns_new_only)));
    }
    crate::bytes::push_str_bytes(out, ",\"numeric_columns\":");
    push_opt_u64(out, c.numeric_columns);
    crate::bytes::push_str_bytes(out, ",\"numeric_cells_checked\":");
    push_opt_u64(out, c.numeric_cells_checked);
    crate::bytes::push_str_bytes(out, ",\"numeric_cells_changed\":");
    push_opt_u64(out, c.numeric_cells_changed);
    out.push(0x7D);
    proof {
        assert(out@ =~= old(out)@ + spec_counts_obj(*c));
    }
}

/// One contributor object.
pub open spec fn spec_contrib_obj(c: JsonContributor) -> Seq<u8> {
    "{\"row_id\":".spec_bytes() + spec_json_str(spec_encode_json(c.row_id@))
        + ",\"column\":".spec_bytes() + spec_json_str(spec_encode_json(c.column@))
        + ",\"old\":".spec_bytes() + c.old_txt@ + ",\"new\":".spec_bytes() + c.new_txt@
        + ",\"delta\":".spec_bytes() + c.delta_txt@ + ",\"contribution\":".spec_bytes()
        + c.contribution_txt@ + ",\"share\":".spec_bytes() + c.share_txt@
        + ",\"cumulative_share\":".spec_bytes() + c.cumulative_txt@ + seq![0x7Du8]
}

#[verifier::rlimit(100)]
#[verifier::spinoff_prover]
fn push_contrib_obj(out: &mut Vec<u8>, c: &JsonContributor)
    ensures
        final(out)@ == old(out)@ + spec_contrib_obj(*c),
{
    crate::bytes::push_str_bytes(out, "{\"row_id\":");
    push_ident_json(out, c.row_id.as_slice());
    crate::bytes::push_str_bytes(out, ",\"column\":");
    push_ident_json(out, c.column.as_slice());
    crate::bytes::push_str_bytes(out, ",\"old\":");
    crate::bytes::push_all(out, c.old_txt.as_slice());
    crate::bytes::push_str_bytes(out, ",\"new\":");
    crate::bytes::push_all(out, c.new_txt.as_slice());
    crate::bytes::push_str_bytes(out, ",\"delta\":");
    crate::bytes::push_all(out, c.delta_txt.as_slice());
    crate::bytes::push_str_bytes(out, ",\"contribution\":");
    crate::bytes::push_all(out, c.contribution_txt.as_slice());
    crate::bytes::push_str_bytes(out, ",\"share\":");
    crate::bytes::push_all(out, c.share_txt.as_slice());
    crate::bytes::push_str_bytes(out, ",\"cumulative_share\":");
    crate::bytes::push_all(out, c.cumulative_txt.as_slice());
    out.push(0x7D);
    proof {
        assert(out@ =~= old(out)@ + spec_contrib_obj(*c));
    }
}

/// The contributors array.
pub open spec fn spec_contrib_array(s: Seq<JsonContributor>) -> Seq<u8>
    decreases s.len(),
{
    if s.len() == 0 {
        seq![0x5Bu8, 0x5Du8]
    } else if s.len() == 1 {
        seq![0x5Bu8] + spec_contrib_obj(s[0]) + seq![0x5Du8]
    } else {
        spec_contrib_array(s.drop_last()).drop_last() + seq![0x2Cu8] + spec_contrib_obj(
            s[s.len() - 1],
        ) + seq![0x5Du8]
    }
}

proof fn lemma_contrib_array_len(s: Seq<JsonContributor>)
    ensures
        spec_contrib_array(s).len() >= 2,
    decreases s.len(),
{
    if s.len() > 1 {
        lemma_contrib_array_len(s.drop_last());
    }
}

fn push_contrib_array(out: &mut Vec<u8>, items: &Vec<JsonContributor>)
    ensures
        final(out)@ == old(out)@ + spec_contrib_array(items@),
{
    let n = items.len();
    out.push(0x5B);
    let mut i: usize = 0;
    proof {
        assert(out@ =~= old(out)@ + seq![0x5Bu8]);
    }
    while i < n
        invariant
            0 <= i <= n,
            n == items@.len(),
            i == 0 ==> out@ == old(out)@ + seq![0x5Bu8],
            i > 0 ==> out@ + seq![0x5Du8] == old(out)@ + spec_contrib_array(items@.take(i as int)),
        decreases n - i,
    {
        let ghost pre = out@;
        if i > 0 {
            proof {
                lemma_contrib_array_len(items@.take(i as int));
                let a = spec_contrib_array(items@.take(i as int));
                assert(pre =~= (old(out)@ + a).drop_last());
                assert((old(out)@ + a).drop_last() =~= old(out)@ + a.drop_last());
            }
            out.push(0x2C);
        }
        push_contrib_obj(out, &items[i]);
        proof {
            let t = items@.take(i + 1);
            assert(t.drop_last() =~= items@.take(i as int));
            assert(t[t.len() - 1] == items@[i as int]);
            if i == 0 {
                assert(spec_contrib_array(t) =~= seq![0x5Bu8] + spec_contrib_obj(items@[0]) + seq![
                    0x5Du8,
                ]);
                assert(out@ + seq![0x5Du8] =~= old(out)@ + spec_contrib_array(t));
            } else {
                let a = spec_contrib_array(items@.take(i as int));
                assert(out@ =~= old(out)@ + a.drop_last() + seq![0x2Cu8] + spec_contrib_obj(
                    items@[i as int],
                ));
                assert(out@ + seq![0x5Du8] =~= old(out)@ + spec_contrib_array(t));
            }
        }
        i = i + 1;
    }
    out.push(0x5D);
    proof {
        if n == 0 {
            assert(out@ =~= old(out)@ + seq![0x5Bu8, 0x5Du8]);
        } else {
            assert(items@.take(n as int) =~= items@);
        }
    }
}

/// The outcome word of the JSON document.
pub open spec fn spec_outcome_str(verdict: JsonVerdict) -> Seq<u8> {
    match verdict {
        JsonVerdict::RealChange(..) => spec_json_str("REAL_CHANGE".spec_bytes()),
        JsonVerdict::NoRealChange => spec_json_str("NO_REAL_CHANGE".spec_bytes()),
        JsonVerdict::Refusal(..) => spec_json_str("REFUSAL".spec_bytes()),
    }
}

/// The dialect-through-counts section of the document.
pub open spec fn spec_json_mid1(ctx: JsonContext) -> Seq<u8> {
    "},\"dialect\":{\"old\":".spec_bytes() + spec_dialect_side(ctx.dialect_old)
        + ",\"new\":".spec_bytes() + spec_dialect_side(ctx.dialect_new)
        + "},\"threshold\":".spec_bytes() + ctx.threshold_txt@ + ",\"tolerance\":".spec_bytes()
        + ctx.tolerance_txt@ + ",\"counts\":".spec_bytes() + spec_counts_obj(ctx.counts)
}

/// The metrics-and-limits section of the document.
pub open spec fn spec_json_mid2(ctx: JsonContext) -> Seq<u8> {
    ",\"metrics\":{\"total_change\":".spec_bytes() + spec_opt_num(ctx.total_change_txt)
        + ",\"max_abs_delta\":".spec_bytes() + spec_opt_num(ctx.max_abs_delta_txt)
        + ",\"top_k_coverage\":".spec_bytes() + spec_opt_num(ctx.top_k_coverage_txt)
        + "},\"limits\":{\"max_contributors\":25},\"contributors\":".spec_bytes()
}

/// The dialect-through-limits middle of the document.
pub open spec fn spec_json_mid(ctx: JsonContext) -> Seq<u8> {
    spec_json_mid1(ctx) + spec_json_mid2(ctx)
}

/// The document up to and including the `"contributors":` key.
pub open spec fn spec_json_head(ctx: JsonContext, verdict: JsonVerdict) -> Seq<u8> {
    "{\"version\":\"rvl.v0\",\"outcome\":".spec_bytes() + spec_outcome_str(verdict)
        + ",\"files\":{\"old\":".spec_bytes() + spec_json_str(ctx.old_path@)
        + ",\"new\":".spec_bytes() + spec_json_str(ctx.new_path@)
        + "},\"alignment\":{\"mode\":".spec_bytes() + (match ctx.key_column {
        Some(k) => spec_json_str("key".spec_bytes()) + ",\"key_column\":".spec_bytes()
            + spec_json_str(spec_encode_json(k@)),
        None => spec_json_str("row_order".spec_bytes()) + ",\"key_column\":null".spec_bytes(),
    }) + spec_json_mid(ctx)
}

/// The whole JSON document for one run.
pub open spec fn spec_render_json(ctx: JsonContext, verdict: JsonVerdict) -> Seq<u8> {
    spec_json_head(ctx, verdict) + (match verdict {
        JsonVerdict::RealChange(cs) => spec_contrib_array(cs@),
        _ => seq![0x5Bu8, 0x5Du8],
    }) + ",\"refusal\":".spec_bytes() + (match verdict {
        JsonVerdict::Refusal(code, kind) => "{\"code\":".spec_bytes() + spec_json_str(
            spec_code_bytes(code),
        ) + ",\"message\":".spec_bytes() + spec_json_str(spec_reason_bytes(code))
            + ",\"detail\":".spec_bytes() + spec_detail_obj(kind) + seq![0x7Du8],
        _ => "null".spec_bytes(),
    }) + seq![0x7Du8]
}

/// Append the document head, through the `"contributors":` key.
#[verifier::rlimit(100)]
#[verifier::spinoff_prover]
fn push_json_head(out: &mut Vec<u8>, ctx: &JsonContext, verdict: &JsonVerdict)
    ensures
        final(out)@ == old(out)@ + spec_json_head(*ctx, *verdict),
{
    let mut h1: Vec<u8> = Vec::new();
    crate::bytes::push_str_bytes(&mut h1, "{\"version\":\"rvl.v0\",\"outcome\":");
    match verdict {
        JsonVerdict::RealChange(..) => push_json_str(&mut h1, "REAL_CHANGE".as_bytes()),
        JsonVerdict::NoRealChange => push_json_str(&mut h1, "NO_REAL_CHANGE".as_bytes()),
        JsonVerdict::Refusal(..) => push_json_str(&mut h1, "REFUSAL".as_bytes()),
    }
    crate::bytes::push_str_bytes(&mut h1, ",\"files\":{\"old\":");
    push_json_str(&mut h1, ctx.old_path.as_slice());
    crate::bytes::push_str_bytes(&mut h1, ",\"new\":");
    push_json_str(&mut h1, ctx.new_path.as_slice());
    crate::bytes::push_str_bytes(&mut h1, "},\"alignment\":{\"mode\":");
    proof {
        assert(h1@ == "{\"version\":\"rvl.v0\",\"outcome\":".spec_bytes() + spec_outcome_str(
            *verdict,
        ) + ",\"files\":{\"old\":".spec_bytes() + spec_json_str(ctx.old_path@)
            + ",\"new\":".spec_bytes() + spec_json_str(ctx.new_path@)
            + "},\"alignment\":{\"mode\":".spec_bytes());
    }
    let mut abuf: Vec<u8> = Vec::new();
    match &ctx.key_column {
        Some(k) => {
            push_json_str(&mut abuf, "key".as_bytes());
            crate::bytes::push_str_bytes(&mut abuf, ",\"key_column\":");
            push_ident_json(&mut abuf, k.as_slice());
            proof {
                assert(abuf@ == spec_json_str("key".spec_bytes()) + ",\"key_column\":"
                    .spec_bytes() + spec_json_str(spec_encode_json(k@)));
            }
        },
        None => {
            push_json_str(&mut abuf, "row_order".as_bytes());
            crate::bytes::push_str_bytes(&mut abuf, ",\"key_column\":null");
            proof {
                assert(abuf@ == spec_json_str("row_order".spec_bytes())
                    + ",\"key_column\":null".spec_bytes());
            }
        },
    }
    crate::bytes::push_all(out, h1.as_slice());
    crate::bytes::push_all(out, abuf.as_slice());
    push_json_mid(out, ctx);
    proof {
        assert(out@ =~= old(out)@ + spec_json_head(*ctx, *verdict));
    }
}

/// Append the dialect-through-limits middle of the document.
#[verifier::rlimit(100)]
#[verifier::spinoff_prover]
fn push_json_mid(out: &mut Vec<u8>, ctx: &JsonContext)
    ensures
        final(out)@ == old(out)@ + spec_json_mid(*ctx),
{
    let mut m1: Vec<u8> = Vec::new();
    crate::bytes::push_str_bytes(&mut m1, "},\"dialect\":{\"old\":");
    push_dialect_side(&mut m1, &ctx.dialect_old);
    crate::bytes::push_str_bytes(&mut m1, ",\"new\":");
    push_dialect_side(&mut m1, &ctx.dialect_new);
    crate::bytes::push_str_bytes(&mut m1, "},\"threshold\":");
    crate::bytes::push_all(&mut m1, ctx.threshold_txt.as_slice());
    crate::bytes::push_str_bytes(&mut m1, ",\"tolerance\":");
    crate::bytes::push_all(&mut m1, ctx.tolerance_txt.as_slice());
    crate::bytes::push_str_bytes(&mut m1, ",\"counts\":");
    push_counts_obj(&mut m1, &ctx.counts);
    proof {
        assert(m1@ =~= spec_json_mid1(*ctx));
    }
    let mut m2: Vec<u8> = Vec::new();
    crate::bytes::push_str_bytes(&mut m2, ",\"metrics\":{\"total_change\":");
    push_opt_num(&mut m2, &ctx.total_change_txt);
    crate::bytes::push_str_bytes(&mut m2, ",\"max_abs_delta\":");
    push_opt_num(&mut m2, &ctx.max_abs_delta_txt);
    crate::bytes::push_str_bytes(&mut m2, ",\"top_k_coverage\":");
    push_opt_num(&mut m2, &ctx.top_k_coverage_txt);
    crate::bytes::push_str_bytes(
        &mut m2,
        "},\"limits\":{\"max_contributors\":25},\"contributors\":",
    );
    proof {
        assert(m2@ =~= spec_json_mid2(*ctx));
    }
    crate::bytes::push_all(out, m1.as_slice());
    crate::bytes::push_all(out, m2.as_slice());
    proof {
        assert(out@ == old(out)@ + spec_json_mid1(*ctx) + spec_json_mid2(*ctx));
        assert(out@ =~= old(out)@ + (spec_json_mid1(*ctx) + spec_json_mid2(*ctx)));
    }
}

/// Render the whole JSON document for one run.
#[verifier::rlimit(100)]
#[verifier::spinoff_prover]
pub fn render_json(ctx: &JsonContext, verdict: &JsonVerdict) -> (r: Vec<u8>)
    ensures
        r@ == spec_render_json(*ctx, *verdict),
{
    let mut out: Vec<u8> = Vec::new();
    push_json_head(&mut out, ctx, verdict);
    match verdict {
        JsonVerdict::RealChange(cs) => push_contrib_array(&mut out, cs),
        _ => {
            out.push(0x5B);
            out.push(0x5D);
            proof {
                assert(out@.subrange(out@.len() - 2, out@.len() as int) =~= seq![0x5Bu8, 0x5Du8]);
            }
        },
    }
    crate::bytes::push_str_bytes(&mut out, ",\"refusal\":");
    match verdict {
        JsonVerdict::Refusal(code, kind) => {
            crate::bytes::push_str_bytes(&mut out, "{\"code\":");
            let cs = code.as_str();
            let mut cbuf: Vec<u8> = Vec::new();
            crate::bytes::push_str_bytes(&mut cbuf, cs);
            push_json_str(&mut out, cbuf.as_slice());
            crate::bytes::push_str_bytes(&mut out, ",\"message\":");
            let rs = code.reason();
            let mut rbuf: Vec<u8> = Vec::new();
            crate::bytes::push_str_bytes(&mut rbuf, rs);
            push_json_str(&mut out, rbuf.as_slice());
            crate::bytes::push_str_bytes(&mut out, ",\"detail\":");
            push_detail_obj(&mut out, kind);
            out.push(0x7D);
        },
        _ => {
            crate::bytes::push_str_bytes(&mut out, "null");
        },
    }
    out.push(0x7D);
    proof {
        assert(out@ =~= spec_render_json(*ctx, *verdict));
    }
    out
}

} // verus!
