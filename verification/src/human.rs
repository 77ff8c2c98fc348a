//! Human-readable output: the shared header, the refusal block, and the
//! verdict bodies. Numbers that require floating-point formatting arrive
//! pre-rendered as byte strings.

use vstd::prelude::*;
use vstd::string::StringSliceAdditionalSpecFns;

use crate::bytes::{dec_digits_of, views_of};
use crate::codes::{spec_code_bytes, spec_reason_bytes, RefusalCode};
use crate::details::{
    spec_upper_hex, spec_visible_ascii, EncodingIssue, FileSide, HeadersIssue, RefusalDetail,
    RefusalKind,
};
use crate::ident_human::spec_render_human;
use crate::numbers::spec_int_with_commas;

verus! {

/// How the rows were aligned, for the header line.
#[derive(Debug, Clone)]
pub enum Alignment {
    Key { column: Vec<u8> },
    RowOrder,
}

/// Column counts for the header.
#[derive(Debug, Clone, Copy, PartialEq, Eq, Structural)]
pub struct ColumnCounts {
    pub common: u64,
    pub old_only: u64,
    pub new_only: u64,
}

/// Checked-cell counts for the header.
#[derive(Debug, Clone, Copy, PartialEq, Eq, Structural)]
pub struct CheckedCounts {
    pub rows: u64,
    pub numeric_columns: u64,
    pub cells: u64,
}

/// The dialect facts echoed in the header.
#[derive(Debug, Clone, Copy, PartialEq, Eq, Structural)]
pub struct DialectReceipt {
    pub delimiter: u8,
    pub quote: u8,
    pub escape: Option<u8>,
}

/// The settings echoed in the header, pre-formatted.
#[derive(Debug, Clone)]
pub struct Settings {
    pub threshold_pct: Vec<u8>,
    pub tolerance_txt: Vec<u8>,
}

/// The header block of a REAL / NO REAL CHANGE verdict.
pub struct HumanHeader {
    pub old_name: Vec<u8>,
    pub new_name: Vec<u8>,
    pub alignment: Alignment,
    pub columns: ColumnCounts,
    pub checked: CheckedCounts,
    pub dialect_old: DialectReceipt,
    pub dialect_new: DialectReceipt,
    pub settings: Settings,
}

/// The abbreviated header block of a refusal.
pub struct RefusalHeader {
    pub old_name: Vec<u8>,
    pub new_name: Vec<u8>,
    pub alignment: Alignment,
    pub dialect_old: Option<DialectReceipt>,
    pub dialect_new: Option<DialectReceipt>,
    pub settings: Settings,
}

/// A grouped count: thousands separators while the value fits a signed
/// word, plain digits beyond.
pub open spec fn spec_count_bytes(v: u64) -> Seq<u8> {
    if v <= i64::MAX as u64 {
        spec_int_with_commas(v as int)
    } else {
        dec_digits_of(v as nat)
    }
}

/// The header spelling of a delimiter byte.
pub open spec fn spec_delim_bytes(d: u8) -> Seq<u8> {
    if d == 0x09 {
        "TAB".spec_bytes()
    } else if spec_visible_ascii(d) {
        seq![d]
    } else {
        "0x".spec_bytes() + seq![spec_upper_hex(d / 16), spec_upper_hex(d % 16)]
    }
}

/// The header spelling of the quote byte.
pub open spec fn spec_quote_bytes(q: u8) -> Seq<u8> {
    if spec_visible_ascii(q) {
        seq![q]
    } else {
        "0x".spec_bytes() + seq![spec_upper_hex(q / 16), spec_upper_hex(q % 16)]
    }
}

/// The header spelling of the escape byte.
pub open spec fn spec_escape_bytes(e: Option<u8>) -> Seq<u8> {
    match e {
        None => "none".spec_bytes(),
        Some(b) => {
            if b == 0x5C {
                "\\\\".spec_bytes()
            } else if spec_visible_ascii(b) {
                seq![b]
            } else {
                "0x".spec_bytes() + seq![spec_upper_hex(b / 16), spec_upper_hex(b % 16)]
            }
        },
    }
}

/// The `Dialect(...)` line tail for one side.
pub open spec fn spec_dialect_line(d: DialectReceipt) -> Seq<u8> {
    "delimiter=".spec_bytes() + spec_delim_bytes(d.delimiter) + " quote=".spec_bytes()
        + spec_quote_bytes(d.quote) + " escape=".spec_bytes() + spec_escape_bytes(d.escape)
}

/// The `Alignment:` line tail.
pub open spec fn spec_alignment_bytes(a: Alignment) -> Seq<u8> {
    match a {
        Alignment::Key { column } => "key=".spec_bytes() + column@,
        Alignment::RowOrder => "row-order (no key)".spec_bytes(),
    }
}

/// The header spelling of one delimiter byte, as owned bytes.
pub fn format_delimiter(d: u8) -> (r: Vec<u8>)
    ensures
        r@ == spec_delim_bytes(d),
{
    let mut out: Vec<u8> = Vec::new();
    if d == 0x09 {
        crate::bytes::push_str_bytes(&mut out, "TAB");
    } else {
        push_byte_or_hex(&mut out, d);
    }
    out
}

/// Append a grouped count.
pub fn push_count(out: &mut Vec<u8>, v: u64)
    ensures
        final(out)@ == old(out)@ + spec_count_bytes(v),
{
    if v <= 0x7FFF_FFFF_FFFF_FFFF {
        let w = crate::numbers::format_int_with_commas(v as i64);
        crate::bytes::push_all(out, w.as_slice());
    } else {
        crate::bytes::push_dec_u64(out, v);
    }
}

fn push_byte_or_hex(out: &mut Vec<u8>, b: u8)
    ensures
        final(out)@ == old(out)@ + (if spec_visible_ascii(b) {
            seq![b]
        } else {
            "0x".spec_bytes() + seq![spec_upper_hex(b / 16), spec_upper_hex(b % 16)]
        }),
{
    if 0x21 <= b && b <= 0x7E {
        out.push(b);
        proof {
            assert(out@ =~= old(out)@ + seq![b]);
        }
    } else {
        crate::bytes::push_str_bytes(out, "0x");
        let hi = b / 16;
        let lo = b % 16;
        out.push(
            if hi < 10 {
                0x30 + hi
            } else {
                0x41 + (hi - 10)
            },
        );
        out.push(
            if lo < 10 {
                0x30 + lo
            } else {
                0x41 + (lo - 10)
            },
        );
        proof {
            assert(out@ =~= old(out)@ + ("0x".spec_bytes() + seq![
                spec_upper_hex(b / 16),
                spec_upper_hex(b % 16),
            ]));
        }
    }
}

/// Append the dialect line tail for one side.
#[verifier::rlimit(60)]
pub fn push_dialect(out: &mut Vec<u8>, d: DialectReceipt)
    ensures
        final(out)@ == old(out)@ + spec_dialect_line(d),
{
    crate::bytes::push_str_bytes(out, "delimiter=");
    if d.delimiter == 0x09 {
        crate::bytes::push_str_bytes(out, "TAB");
    } else {
        push_byte_or_hex(out, d.delimiter);
    }
    crate::bytes::push_str_bytes(out, " quote=");
    push_byte_or_hex(out, d.quote);
    crate::bytes::push_str_bytes(out, " escape=");
    match d.escape {
        None => crate::bytes::push_str_bytes(out, "none"),
        Some(b) => {
            if b == 0x5C {
                crate::bytes::push_str_bytes(out, "\\\\");
            } else {
                push_byte_or_hex(out, b);
            }
        },
    }
}

fn push_alignment(out: &mut Vec<u8>, a: &Alignment)
    ensures
        final(out)@ == old(out)@ + spec_alignment_bytes(*a),
{
    match a {
        Alignment::Key { column } => {
            crate::bytes::push_str_bytes(out, "key=");
            crate::bytes::push_all(out, column.as_slice());
        },
        Alignment::RowOrder => crate::bytes::push_str_bytes(out, "row-order (no key)"),
    }
}

/// The `Compared:` line.
pub open spec fn spec_compared_line(old_name: Seq<u8>, new_name: Seq<u8>) -> Seq<u8> {
    "Compared: ".spec_bytes() + old_name + " -> ".spec_bytes() + new_name
}

/// The `Settings:` line.
pub open spec fn spec_settings_line(s: Settings) -> Seq<u8> {
    "Settings: threshold=".spec_bytes() + s.threshold_pct@ + " tolerance=".spec_bytes()
        + s.tolerance_txt@
}

/// Render the full header of a REAL / NO REAL CHANGE verdict.
pub fn render_real_no_real_header(ctx: &HumanHeader) -> (r: Vec<Vec<u8>>)
    ensures
        views_of(r@) == seq![
            spec_compared_line(ctx.old_name@, ctx.new_name@),
            "Alignment: ".spec_bytes() + spec_alignment_bytes(ctx.alignment),
            "Columns: common=".spec_bytes() + spec_count_bytes(ctx.columns.common)
                + " old_only=".spec_bytes() + spec_count_bytes(ctx.columns.old_only)
                + " new_only=".spec_bytes() + spec_count_bytes(ctx.columns.new_only),
            "Checked: ".spec_bytes() + spec_count_bytes(ctx.checked.rows) + " rows, ".spec_bytes()
                + spec_count_bytes(ctx.checked.numeric_columns) + " numeric columns (".spec_bytes()
                + spec_count_bytes(ctx.checked.cells) + " cells)".spec_bytes(),
            "Dialect(old): ".spec_bytes() + spec_dialect_line(ctx.dialect_old),
            "Dialect(new): ".spec_bytes() + spec_dialect_line(ctx.dialect_new),
            "Ranking: abs(delta) (unscaled)".spec_bytes(),
            spec_settings_line(ctx.settings),
        ],
{
    let mut lines: Vec<Vec<u8>> = Vec::new();
    let mut l1: Vec<u8> = Vec::new();
    crate::bytes::push_str_bytes(&mut l1, "Compared: ");
    crate::bytes::push_all(&mut l1, ctx.old_name.as_slice());
    crate::bytes::push_str_bytes(&mut l1, " -> ");
    crate::bytes::push_all(&mut l1, ctx.new_name.as_slice());
    lines.push(l1);
    let mut l2: Vec<u8> = Vec::new();
    crate::bytes::push_str_bytes(&mut l2, "Alignment: ");
    push_alignment(&mut l2, &ctx.alignment);
    lines.push(l2);
    let mut l3: Vec<u8> = Vec::new();
    crate::bytes::push_str_bytes(&mut l3, "Columns: common=");
    push_count(&mut l3, ctx.columns.common);
    crate::bytes::push_str_bytes(&mut l3, " old_only=");
    push_count(&mut l3, ctx.columns.old_only);
    crate::bytes::push_str_bytes(&mut l3, " new_only=");
    push_count(&mut l3, ctx.columns.new_only);
    lines.push(l3);
    let mut l4: Vec<u8> = Vec::new();
    crate::bytes::push_str_bytes(&mut l4, "Checked: ");
    push_count(&mut l4, ctx.checked.rows);
    crate::bytes::push_str_bytes(&mut l4, " rows, ");
    push_count(&mut l4, ctx.checked.numeric_columns);
    crate::bytes::push_str_bytes(&mut l4, " numeric columns (");
    push_count(&mut l4, ctx.checked.cells);
    crate::bytes::push_str_bytes(&mut l4, " cells)");
    lines.push(l4);
    let mut l5: Vec<u8> = Vec::new();
    crate::bytes::push_str_bytes(&mut l5, "Dialect(old): ");
    push_dialect(&mut l5, ctx.dialect_old);
    lines.push(l5);
    let mut l6: Vec<u8> = Vec::new();
    crate::bytes::push_str_bytes(&mut l6, "Dialect(new): ");
    push_dialect(&mut l6, ctx.dialect_new);
    lines.push(l6);
    let mut l7: Vec<u8> = Vec::new();
    crate::bytes::push_str_bytes(&mut l7, "Ranking: abs(delta) (unscaled)");
    lines.push(l7);
    let mut l8: Vec<u8> = Vec::new();
    crate::bytes::push_str_bytes(&mut l8, "Settings: threshold=");
    crate::bytes::push_all(&mut l8, ctx.settings.threshold_pct.as_slice());
    crate::bytes::push_str_bytes(&mut l8, " tolerance=");
    crate::bytes::push_all(&mut l8, ctx.settings.tolerance_txt.as_slice());
    lines.push(l8);
    proof {
        assert(views_of(lines@) =~= seq![
            spec_compared_line(ctx.old_name@, ctx.new_name@),
            "Alignment: ".spec_bytes() + spec_alignment_bytes(ctx.alignment),
            "Columns: common=".spec_bytes() + spec_count_bytes(ctx.columns.common)
                + " old_only=".spec_bytes() + spec_count_bytes(ctx.columns.old_only)
                + " new_only=".spec_bytes() + spec_count_bytes(ctx.columns.new_only),
            "Checked: ".spec_bytes() + spec_count_bytes(ctx.checked.rows) + " rows, ".spec_bytes()
                + spec_count_bytes(ctx.checked.numeric_columns) + " numeric columns (".spec_bytes()
                + spec_count_bytes(ctx.checked.cells) + " cells)".spec_bytes(),
            "Dialect(old): ".spec_bytes() + spec_dialect_line(ctx.dialect_old),
            "Dialect(new): ".spec_bytes() + spec_dialect_line(ctx.dialect_new),
            "Ranking: abs(delta) (unscaled)".spec_bytes(),
            spec_settings_line(ctx.settings),
        ]);
    }
    lines
}

/// Render the abbreviated header of a refusal: dialect lines only when
/// both sides are known.
pub fn render_refusal_header(ctx: &RefusalHeader) -> (r: Vec<Vec<u8>>)
    ensures
        ({
            let head = seq![
                spec_compared_line(ctx.old_name@, ctx.new_name@),
                "Alignment: ".spec_bytes() + spec_alignment_bytes(ctx.alignment),
            ];
            let tail = seq![spec_settings_line(ctx.settings)];
            match (ctx.dialect_old, ctx.dialect_new) {
                (Some(od), Some(nd)) => views_of(r@) == head + seq![
                    "Dialect(old): ".spec_bytes() + spec_dialect_line(od),
                    "Dialect(new): ".spec_bytes() + spec_dialect_line(nd),
                ] + tail,
                _ => views_of(r@) == head + tail,
            }
        }),
{
    let mut lines: Vec<Vec<u8>> = Vec::new();
    let mut l1: Vec<u8> = Vec::new();
    crate::bytes::push_str_bytes(&mut l1, "Compared: ");
    crate::bytes::push_all(&mut l1, ctx.old_name.as_slice());
    crate::bytes::push_str_bytes(&mut l1, " -> ");
    crate::bytes::push_all(&mut l1, ctx.new_name.as_slice());
    lines.push(l1);
    let mut l2: Vec<u8> = Vec::new();
    crate::bytes::push_str_bytes(&mut l2, "Alignment: ");
    push_alignment(&mut l2, &ctx.alignment);
    lines.push(l2);
    let both = match (ctx.dialect_old, ctx.dialect_new) {
        (Some(_), Some(_)) => true,
        _ => false,
    };
    if both {
        let od = match ctx.dialect_old {
            Some(d) => d,
            None => DialectReceipt { delimiter: 0x2C, quote: 0x22, escape: None },
        };
        let nd = match ctx.dialect_new {
            Some(d) => d,
            None => DialectReceipt { delimiter: 0x2C, quote: 0x22, escape: None },
        };
        let mut l3: Vec<u8> = Vec::new();
        crate::bytes::push_str_bytes(&mut l3, "Dialect(old): ");
        push_dialect(&mut l3, od);
        lines.push(l3);
        let mut l4: Vec<u8> = Vec::new();
        crate::bytes::push_str_bytes(&mut l4, "Dialect(new): ");
        push_dialect(&mut l4, nd);
        lines.push(l4);
    }
    let mut l5: Vec<u8> = Vec::new();
    crate::bytes::push_str_bytes(&mut l5, "Settings: threshold=");
    crate::bytes::push_all(&mut l5, ctx.settings.threshold_pct.as_slice());
    crate::bytes::push_str_bytes(&mut l5, " tolerance=");
    crate::bytes::push_all(&mut l5, ctx.settings.tolerance_txt.as_slice());
    lines.push(l5);
    proof {
        match (ctx.dialect_old, ctx.dialect_new) {
            (Some(od2), Some(nd2)) => {
                assert(views_of(lines@) =~= seq![
                    spec_compared_line(ctx.old_name@, ctx.new_name@),
                    "Alignment: ".spec_bytes() + spec_alignment_bytes(ctx.alignment),
                ] + seq![
                    "Dialect(old): ".spec_bytes() + spec_dialect_line(od2),
                    "Dialect(new): ".spec_bytes() + spec_dialect_line(nd2),
                ] + seq![spec_settings_line(ctx.settings)]);
            },
            _ => {
                assert(views_of(lines@) =~= seq![
                    spec_compared_line(ctx.old_name@, ctx.new_name@),
                    "Alignment: ".spec_bytes() + spec_alignment_bytes(ctx.alignment),
                ] + seq![spec_settings_line(ctx.settings)]);
            },
        }
    }
    lines
}

/// Pre-rendered contributor line pieces for the REAL CHANGE body.
#[derive(Debug, Clone)]
pub struct RealChangeContributor {
    pub label: Vec<u8>,
    pub old_txt: Vec<u8>,
    pub new_txt: Vec<u8>,
    pub delta_txt: Vec<u8>,
}

/// The REAL CHANGE body inputs, with percentages pre-rendered.
pub struct RealChangeBody {
    pub contributors: Vec<RealChangeContributor>,
    pub coverage_pct: Vec<u8>,
    pub threshold_pct: Vec<u8>,
}

/// One numbered contributor line.
pub open spec fn spec_contrib_line(index: int, c: RealChangeContributor) -> Seq<u8> {
    dec_digits_of(index as nat) + ". ".spec_bytes() + c.label@ + "  ".spec_bytes() + c.delta_txt@
        + "  (".spec_bytes() + c.old_txt@ + " -> ".spec_bytes() + c.new_txt@ + ")".spec_bytes()
}

/// Render the REAL CHANGE body lines.
pub fn render_real_change_body(ctx: &RealChangeBody) -> (r: Vec<Vec<u8>>)
    ensures
        r@.len() == ctx.contributors@.len() + 4,
        views_of(r@)[0] == dec_digits_of(ctx.contributors@.len() as nat) + (if ctx.contributors@.len()
            == 1 {
            " cell explain ".spec_bytes()
        } else {
            " cells explain ".spec_bytes()
        }) + ctx.coverage_pct@ + " of total numeric change (threshold ".spec_bytes()
            + ctx.threshold_pct@ + "):".spec_bytes(),
        views_of(r@)[1] == Seq::<u8>::empty(),
        forall|i: int|
            0 <= i < ctx.contributors@.len() ==> views_of(r@)[i + 2] == spec_contrib_line(
                i + 1,
                #[trigger] ctx.contributors@[i],
            ),
        views_of(r@)[r@.len() - 2] == Seq::<u8>::empty(),
        views_of(r@)[r@.len() - 1]
            == "Everything else in common numeric columns is <= tolerance or in the tail (not required to reach threshold).".spec_bytes(),
{
    let n = ctx.contributors.len();
    let mut lines: Vec<Vec<u8>> = Vec::new();
    let mut l1: Vec<u8> = Vec::new();
    crate::bytes::push_dec_u64(&mut l1, n as u64);
    if n == 1 {
        crate::bytes::push_str_bytes(&mut l1, " cell explain ");
    } else {
        crate::bytes::push_str_bytes(&mut l1, " cells explain ");
    }
    crate::bytes::push_all(&mut l1, ctx.coverage_pct.as_slice());
    crate::bytes::push_str_bytes(&mut l1, " of total numeric change (threshold ");
    crate::bytes::push_all(&mut l1, ctx.threshold_pct.as_slice());
    crate::bytes::push_str_bytes(&mut l1, "):");
    lines.push(l1);
    lines.push(Vec::new());
    let mut i: usize = 0;
    while i < n
        invariant
            0 <= i <= n,
            n == ctx.contributors@.len(),
            lines@.len() == i + 2,
            views_of(lines@)[0] == dec_digits_of(n as nat) + (if n == 1 {
                " cell explain ".spec_bytes()
            } else {
                " cells explain ".spec_bytes()
            }) + ctx.coverage_pct@ + " of total numeric change (threshold ".spec_bytes()
                + ctx.threshold_pct@ + "):".spec_bytes(),
            views_of(lines@)[1] == Seq::<u8>::empty(),
            forall|j: int|
                0 <= j < i ==> views_of(lines@)[j + 2] == spec_contrib_line(
                    j + 1,
                    #[trigger] ctx.contributors@[j],
                ),
        decreases n - i,
    {
        let c = &ctx.contributors[i];
        let mut l: Vec<u8> = Vec::new();
        crate::bytes::push_dec_u64(&mut l, (i + 1) as u64);
        crate::bytes::push_str_bytes(&mut l, ". ");
        crate::bytes::push_all(&mut l, c.label.as_slice());
        crate::bytes::push_str_bytes(&mut l, "  ");
        crate::bytes::push_all(&mut l, c.delta_txt.as_slice());
        crate::bytes::push_str_bytes(&mut l, "  (");
        crate::bytes::push_all(&mut l, c.old_txt.as_slice());
        crate::bytes::push_str_bytes(&mut l, " -> ");
        crate::bytes::push_all(&mut l, c.new_txt.as_slice());
        crate::bytes::push_str_bytes(&mut l, ")");
        proof {
            assert(l@ == spec_contrib_line(i + 1, ctx.contributors@[i as int]));
        }
        lines.push(l);
        i = i + 1;
    }
    lines.push(Vec::new());
    let mut tail: Vec<u8> = Vec::new();
    crate::bytes::push_str_bytes(
        &mut tail,
        "Everything else in common numeric columns is <= tolerance or in the tail (not required to reach threshold).",
    );
    lines.push(tail);
    lines
}

/// The NO REAL CHANGE body inputs, pre-rendered.
pub struct NoRealBody {
    pub max_abs_delta_txt: Vec<u8>,
    pub tolerance_txt: Vec<u8>,
}

/// Render the NO REAL CHANGE body lines.
pub fn render_no_real_body(ctx: &NoRealBody) -> (r: Vec<Vec<u8>>)
    ensures
        views_of(r@) == seq![
            "Max abs delta: ".spec_bytes() + ctx.max_abs_delta_txt@ + " (<= tolerance ".spec_bytes()
                + ctx.tolerance_txt@ + ").".spec_bytes(),
            "No numeric deltas above tolerance in common numeric columns.".spec_bytes(),
        ],
{
    let mut lines: Vec<Vec<u8>> = Vec::new();
    let mut l1: Vec<u8> = Vec::new();
    crate::bytes::push_str_bytes(&mut l1, "Max abs delta: ");
    crate::bytes::push_all(&mut l1, ctx.max_abs_delta_txt.as_slice());
    crate::bytes::push_str_bytes(&mut l1, " (<= tolerance ");
    crate::bytes::push_all(&mut l1, ctx.tolerance_txt.as_slice());
    crate::bytes::push_str_bytes(&mut l1, ").");
    lines.push(l1);
    let mut l2: Vec<u8> = Vec::new();
    crate::bytes::push_str_bytes(
        &mut l2,
        "No numeric deltas above tolerance in common numeric columns.",
    );
    lines.push(l2);
    proof {
        assert(views_of(lines@) =~= seq![
            "Max abs delta: ".spec_bytes() + ctx.max_abs_delta_txt@ + " (<= tolerance ".spec_bytes()
                + ctx.tolerance_txt@ + ").".spec_bytes(),
            "No numeric deltas above tolerance in common numeric columns.".spec_bytes(),
        ]);
    }
    lines
}


/// The refusal body inputs.
pub struct RefusalBody {
    pub code: RefusalCode,
    pub detail: RefusalDetail,
    pub old_name: Vec<u8>,
    pub new_name: Vec<u8>,
}

/// Human renderings of a sample list, joined with `, `.
pub open spec fn spec_samples_human(s: Seq<Seq<u8>>) -> Seq<u8>
    decreases s.len(),
{
    if s.len() == 0 {
        Seq::<u8>::empty()
    } else if s.len() == 1 {
        spec_render_human(s[0])
    } else {
        spec_samples_human(s.drop_last()) + ", ".spec_bytes() + spec_render_human(s[s.len() - 1])
    }
}

/// The human name of one tied delimiter byte.
pub open spec fn spec_delim_name(b: u8) -> Seq<u8> {
    if b == 0x2C {
        "comma".spec_bytes()
    } else if b == 0x09 {
        "tab".spec_bytes()
    } else if b == 0x3B {
        "semicolon".spec_bytes()
    } else if b == 0x7C {
        "pipe".spec_bytes()
    } else if b == 0x5E {
        "caret".spec_bytes()
    } else {
        "0x".spec_bytes() + seq![spec_upper_hex(b / 16), spec_upper_hex(b % 16)]
    }
}

/// Tied delimiters, named and joined with `, `.
pub open spec fn spec_delims_human(s: Seq<u8>) -> Seq<u8>
    decreases s.len(),
{
    if s.len() == 0 {
        Seq::<u8>::empty()
    } else if s.len() == 1 {
        spec_delim_name(s[0])
    } else {
        spec_delims_human(s.drop_last()) + ", ".spec_bytes() + spec_delim_name(s[s.len() - 1])
    }
}

/// The display name bytes of the side a refusal speaks about.
pub open spec fn spec_file_label(side: FileSide, old_name: Seq<u8>, new_name: Seq<u8>) -> Seq<u8> {
    match side {
        FileSide::Old => old_name,
        FileSide::New => new_name,
    }
}

/// The code-specific `Example:` line of a refusal.
pub open spec fn spec_example_line(kind: RefusalKind, old_name: Seq<u8>, new_name: Seq<u8>) -> Seq<
    u8,
> {
    match kind {
        RefusalKind::Io { file, error } => "Example: ".spec_bytes() + spec_file_label(
            file,
            old_name,
            new_name,
        ) + " file error: ".spec_bytes() + error@ + ".".spec_bytes(),
        RefusalKind::Encoding { file, issue } => "Example: ".spec_bytes() + spec_file_label(
            file,
            old_name,
            new_name,
        ) + " contains ".spec_bytes() + (match issue {
            EncodingIssue::Utf16 => "a UTF-16 BOM".spec_bytes(),
            EncodingIssue::Utf32 => "a UTF-32 BOM".spec_bytes(),
            EncodingIssue::NulByte => "a NUL byte in the first 8KB".spec_bytes(),
        }) + ".".spec_bytes(),
        RefusalKind::CsvParse { file, line, column } => {
            let f = spec_file_label(file, old_name, new_name);
            match (line, column) {
                (Some(l), Some(c)) => "Example: ".spec_bytes() + f
                    + " parse error at line ".spec_bytes() + spec_count_bytes(l)
                    + ", column ".spec_bytes() + spec_count_bytes(c) + ".".spec_bytes(),
                (Some(l), None) => "Example: ".spec_bytes() + f + " parse error at line "
                    .spec_bytes() + spec_count_bytes(l) + ".".spec_bytes(),
                _ => "Example: ".spec_bytes() + f + " parse error (line unknown).".spec_bytes(),
            }
        },
        RefusalKind::Headers { file, issue } => {
            let f = spec_file_label(file, old_name, new_name);
            match issue {
                HeadersIssue::MissingHeader => "Example: ".spec_bytes() + f
                    + " has no header row.".spec_bytes(),
                HeadersIssue::Duplicate { name } => "Example: ".spec_bytes() + f
                    + " has duplicate header \"".spec_bytes() + spec_render_human(name@)
                    + "\".".spec_bytes(),
                HeadersIssue::ExtraFields { record } => "Example: ".spec_bytes() + f
                    + " data record ".spec_bytes() + spec_count_bytes(record)
                    + " has non-empty extra fields.".spec_bytes(),
            }
        },
        RefusalKind::NoKey { key_column } => "Example: key column \"".spec_bytes()
            + spec_render_human(key_column@) + "\" not found in one or both files.".spec_bytes(),
        RefusalKind::KeyEmpty { file, record, key_column } => "Example: ".spec_bytes()
            + spec_file_label(file, old_name, new_name) + " data record ".spec_bytes()
            + spec_count_bytes(record) + " has empty key in column \"".spec_bytes()
            + spec_render_human(key_column@) + "\".".spec_bytes(),
        RefusalKind::KeyDup { file, record, key_value } => "Example: ".spec_bytes()
            + spec_file_label(file, old_name, new_name) + " data record ".spec_bytes()
            + spec_count_bytes(record) + " duplicates key \"".spec_bytes() + spec_render_human(
            key_value@,
        ) + "\".".spec_bytes(),
        RefusalKind::KeyMismatch { missing_in_new, extra_in_new, missing_samples, extra_samples } =>
            "Example: missing_in_new=".spec_bytes() + spec_count_bytes(missing_in_new as u64)
            + " extra_in_new=".spec_bytes() + spec_count_bytes(extra_in_new as u64)
            + ".".spec_bytes() + (if missing_samples@.len() > 0 {
            " missing samples: [".spec_bytes() + spec_samples_human(views_of(missing_samples@))
                + "].".spec_bytes()
        } else {
            Seq::<u8>::empty()
        }) + (if extra_samples@.len() > 0 {
            " extra samples: [".spec_bytes() + spec_samples_human(views_of(extra_samples@))
                + "].".spec_bytes()
        } else {
            Seq::<u8>::empty()
        }),
        RefusalKind::RowCount { rows_old, rows_new, suggested_keys } =>
            "Example: row count mismatch (old=".spec_bytes() + spec_count_bytes(rows_old)
            + ", new=".spec_bytes() + spec_count_bytes(rows_new) + ").".spec_bytes() + (if
        suggested_keys@.len() > 0 {
            " suggested keys: [".spec_bytes() + spec_samples_human(views_of(suggested_keys@))
                + "].".spec_bytes()
        } else {
            Seq::<u8>::empty()
        }),
        RefusalKind::NeedKey { suggested_keys } => {
            if suggested_keys@.len() == 0 {
                "Example: detected a reorder under a perfect key candidate.".spec_bytes()
            } else {
                "Example: suggested key candidates: [".spec_bytes() + spec_samples_human(
                    views_of(suggested_keys@),
                ) + "].".spec_bytes()
            }
        },
        RefusalKind::Dialect { file, tied_delimiters, .. } => "Example: ".spec_bytes()
            + spec_file_label(file, old_name, new_name) + " delimiter ambiguous among ["
            .spec_bytes() + spec_delims_human(tied_delimiters@) + "].".spec_bytes(),
        RefusalKind::MixedTypes { file, record, column, value, key_value } => {
            match key_value {
                Some(k) => "Example: key \"".spec_bytes() + spec_render_human(k@)
                    + "\" column \"".spec_bytes() + spec_render_human(column@)
                    + "\" has non-numeric value \"".spec_bytes() + spec_render_human(value@)
                    + "\".".spec_bytes(),
                None => "Example: ".spec_bytes() + spec_file_label(file, old_name, new_name)
                    + " data record ".spec_bytes() + spec_count_bytes(record)
                    + " column \"".spec_bytes() + spec_render_human(column@)
                    + "\" has non-numeric value \"".spec_bytes() + spec_render_human(value@)
                    + "\".".spec_bytes(),
            }
        },
        RefusalKind::NoNumeric => "Example: no numeric columns in common.".spec_bytes(),
        RefusalKind::Missingness { file, record, column, value, key_value } => {
            match key_value {
                Some(k) => "Example: key \"".spec_bytes() + spec_render_human(k@)
                    + "\" column \"".spec_bytes() + spec_render_human(column@)
                    + "\" has numeric value \"".spec_bytes() + spec_render_human(value@)
                    + "\" while the other side is missing.".spec_bytes(),
                None => "Example: ".spec_bytes() + spec_file_label(file, old_name, new_name)
                    + " data record ".spec_bytes() + spec_count_bytes(record)
                    + " column \"".spec_bytes() + spec_render_human(column@)
                    + "\" has numeric value \"".spec_bytes() + spec_render_human(value@)
                    + "\" while the other side is missing.".spec_bytes(),
            }
        },
        RefusalKind::Diffuse { top_k_coverage_pct, threshold_pct } =>
            "Example: top_k_coverage=".spec_bytes() + top_k_coverage_pct@
            + " threshold=".spec_bytes() + threshold_pct@ + ".".spec_bytes(),
    }
}

/// Append the human renderings of a sample list, joined with `, `.
fn push_samples(out: &mut Vec<u8>, samples: &Vec<Vec<u8>>)
    ensures
        final(out)@ == old(out)@ + spec_samples_human(views_of(samples@)),
{
    let n = samples.len();
    let mut i: usize = 0;
    proof {
        assert(views_of(samples@).take(0) =~= Seq::<Seq<u8>>::empty());
        assert(out@ =~= old(out)@ + Seq::<u8>::empty());
    }
    while i < n
        invariant
            0 <= i <= n,
            n == samples@.len(),
            out@ == old(out)@ + spec_samples_human(views_of(samples@).take(i as int)),
        decreases n - i,
    {
        proof {
            assert(views_of(samples@)[i as int] == samples@[i as int]@);
        }
        if i > 0 {
            crate::bytes::push_str_bytes(out, ", ");
        }
        let rendered = crate::ident_human::render_identifier_human(samples[i].as_slice());
        crate::bytes::push_all(out, rendered.as_slice());
        proof {
            let sv = views_of(samples@);
            let t = sv.take(i + 1);
            assert(t.drop_last() =~= sv.take(i as int));
            assert(t[t.len() - 1] == sv[i as int]);
            if i == 0 {
                assert(spec_samples_human(t) == spec_render_human(sv[0]));
            }
        }
        i = i + 1;
    }
    proof {
        assert(views_of(samples@).take(n as int) =~= views_of(samples@));
    }
}

/// Append the tied delimiters, named and joined with `, `.
fn push_delims(out: &mut Vec<u8>, delims: &Vec<u8>)
    ensures
        final(out)@ == old(out)@ + spec_delims_human(delims@),
{
    let n = delims.len();
    let mut i: usize = 0;
    proof {
        assert(delims@.take(0) =~= Seq::<u8>::empty());
        assert(out@ =~= old(out)@ + Seq::<u8>::empty());
    }
    while i < n
        invariant
            0 <= i <= n,
            n == delims@.len(),
            out@ == old(out)@ + spec_delims_human(delims@.take(i as int)),
        decreases n - i,
    {
        if i > 0 {
            crate::bytes::push_str_bytes(out, ", ");
        }
        let b = delims[i];
        if b == 0x2C {
            crate::bytes::push_str_bytes(out, "comma");
        } else if b == 0x09 {
            crate::bytes::push_str_bytes(out, "tab");
        } else if b == 0x3B {
            crate::bytes::push_str_bytes(out, "semicolon");
        } else if b == 0x7C {
            crate::bytes::push_str_bytes(out, "pipe");
        } else if b == 0x5E {
            crate::bytes::push_str_bytes(out, "caret");
        } else {
            crate::bytes::push_str_bytes(out, "0x");
            let hi = b / 16;
            let lo = b % 16;
            out.push(
                if hi < 10 {
                    0x30 + hi
                } else {
                    0x41 + (hi - 10)
                },
            );
            out.push(
                if lo < 10 {
                    0x30 + lo
                } else {
                    0x41 + (lo - 10)
                },
            );
        }
        proof {
            let sv = delims@;
            let t = sv.take(i + 1);
            assert(t.drop_last() =~= sv.take(i as int));
            assert(t[t.len() - 1] == sv[i as int]);
            if i == 0 {
                assert(spec_delims_human(t) == spec_delim_name(sv[0]));
            }
        }
        i = i + 1;
    }
    proof {
        assert(delims@.take(n as int) =~= delims@);
    }
}

fn push_ident_human(out: &mut Vec<u8>, bytes: &[u8])
    ensures
        final(out)@ == old(out)@ + spec_render_human(bytes@),
{
    let rendered = crate::ident_human::render_identifier_human(bytes);
    crate::bytes::push_all(out, rendered.as_slice());
}

fn push_file_label(out: &mut Vec<u8>, side: FileSide, old_name: &Vec<u8>, new_name: &Vec<u8>)
    ensures
        final(out)@ == old(out)@ + spec_file_label(side, old_name@, new_name@),
{
    match side {
        FileSide::Old => crate::bytes::push_all(out, old_name.as_slice()),
        FileSide::New => crate::bytes::push_all(out, new_name.as_slice()),
    }
}

/// Build the code-specific `Example:` line.
#[verifier::rlimit(100)]
#[verifier::spinoff_prover]
fn render_example_line(detail: &RefusalDetail, old_name: &Vec<u8>, new_name: &Vec<u8>) -> (r: Vec<
    u8,
>)
    ensures
        r@ == spec_example_line(detail.kind, old_name@, new_name@),
{
    let mut out: Vec<u8> = Vec::new();
    match &detail.kind {
        RefusalKind::Io { file, error } => {
            crate::bytes::push_str_bytes(&mut out, "Example: ");
            push_file_label(&mut out, *file, old_name, new_name);
            crate::bytes::push_str_bytes(&mut out, " file error: ");
            crate::bytes::push_all(&mut out, error.as_slice());
            crate::bytes::push_str_bytes(&mut out, ".");
        },
        RefusalKind::Encoding { file, issue } => {
            crate::bytes::push_str_bytes(&mut out, "Example: ");
            push_file_label(&mut out, *file, old_name, new_name);
            crate::bytes::push_str_bytes(&mut out, " contains ");
            match issue {
                EncodingIssue::Utf16 => crate::bytes::push_str_bytes(&mut out, "a UTF-16 BOM"),
                EncodingIssue::Utf32 => crate::bytes::push_str_bytes(&mut out, "a UTF-32 BOM"),
                EncodingIssue::NulByte => crate::bytes::push_str_bytes(
                    &mut out,
                    "a NUL byte in the first 8KB",
                ),
            }
            crate::bytes::push_str_bytes(&mut out, ".");
        },
        RefusalKind::CsvParse { file, line, column } => {
            crate::bytes::push_str_bytes(&mut out, "Example: ");
            push_file_label(&mut out, *file, old_name, new_name);
            match (line, column) {
                (Some(l), Some(c)) => {
                    crate::bytes::push_str_bytes(&mut out, " parse error at line ");
                    push_count(&mut out, *l);
                    crate::bytes::push_str_bytes(&mut out, ", column ");
                    push_count(&mut out, *c);
                    crate::bytes::push_str_bytes(&mut out, ".");
                },
                (Some(l), None) => {
                    crate::bytes::push_str_bytes(&mut out, " parse error at line ");
                    push_count(&mut out, *l);
                    crate::bytes::push_str_bytes(&mut out, ".");
                },
                _ => {
                    crate::bytes::push_str_bytes(&mut out, " parse error (line unknown).");
                },
            }
        },
        RefusalKind::Headers { file, issue } => {
            crate::bytes::push_str_bytes(&mut out, "Example: ");
            push_file_label(&mut out, *file, old_name, new_name);
            match issue {
                HeadersIssue::MissingHeader => {
                    crate::bytes::push_str_bytes(&mut out, " has no header row.");
                },
                HeadersIssue::Duplicate { name } => {
                    crate::bytes::push_str_bytes(&mut out, " has duplicate header \"");
                    push_ident_human(&mut out, name.as_slice());
                    crate::bytes::push_str_bytes(&mut out, "\".");
                },
                HeadersIssue::ExtraFields { record } => {
                    crate::bytes::push_str_bytes(&mut out, " data record ");
                    push_count(&mut out, *record);
                    crate::bytes::push_str_bytes(&mut out, " has non-empty extra fields.");
                },
            }
        },
        RefusalKind::NoKey { key_column } => {
            crate::bytes::push_str_bytes(&mut out, "Example: key column \"");
            push_ident_human(&mut out, key_column.as_slice());
            crate::bytes::push_str_bytes(&mut out, "\" not found in one or both files.");
        },
        RefusalKind::KeyEmpty { file, record, key_column } => {
            crate::bytes::push_str_bytes(&mut out, "Example: ");
            push_file_label(&mut out, *file, old_name, new_name);
            crate::bytes::push_str_bytes(&mut out, " data record ");
            push_count(&mut out, *record);
            crate::bytes::push_str_bytes(&mut out, " has empty key in column \"");
            push_ident_human(&mut out, key_column.as_slice());
            crate::bytes::push_str_bytes(&mut out, "\".");
        },
        RefusalKind::KeyDup { file, record, key_value } => {
            crate::bytes::push_str_bytes(&mut out, "Example: ");
            push_file_label(&mut out, *file, old_name, new_name);
            crate::bytes::push_str_bytes(&mut out, " data record ");
            push_count(&mut out, *record);
            crate::bytes::push_str_bytes(&mut out, " duplicates key \"");
            push_ident_human(&mut out, key_value.as_slice());
            crate::bytes::push_str_bytes(&mut out, "\".");
        },
        RefusalKind::KeyMismatch { missing_in_new, extra_in_new, missing_samples, extra_samples
        } => {
            crate::bytes::push_str_bytes(&mut out, "Example: missing_in_new=");
            push_count(&mut out, *missing_in_new as u64);
            crate::bytes::push_str_bytes(&mut out, " extra_in_new=");
            push_count(&mut out, *extra_in_new as u64);
            crate::bytes::push_str_bytes(&mut out, ".");
            if missing_samples.len() > 0 {
                crate::bytes::push_str_bytes(&mut out, " missing samples: [");
                push_samples(&mut out, missing_samples);
                crate::bytes::push_str_bytes(&mut out, "].");
            }
            if extra_samples.len() > 0 {
                crate::bytes::push_str_bytes(&mut out, " extra samples: [");
                push_samples(&mut out, extra_samples);
                crate::bytes::push_str_bytes(&mut out, "].");
            }
        },
        RefusalKind::RowCount { rows_old, rows_new, suggested_keys } => {
            crate::bytes::push_str_bytes(&mut out, "Example: row count mismatch (old=");
            push_count(&mut out, *rows_old);
            crate::bytes::push_str_bytes(&mut out, ", new=");
            push_count(&mut out, *rows_new);
            crate::bytes::push_str_bytes(&mut out, ").");
            if suggested_keys.len() > 0 {
                crate::bytes::push_str_bytes(&mut out, " suggested keys: [");
                push_samples(&mut out, suggested_keys);
                crate::bytes::push_str_bytes(&mut out, "].");
            }
        },
        RefusalKind::NeedKey { suggested_keys } => {
            if suggested_keys.len() == 0 {
                crate::bytes::push_str_bytes(
                    &mut out,
                    "Example: detected a reorder under a perfect key candidate.",
                );
            } else {
                crate::bytes::push_str_bytes(&mut out, "Example: suggested key candidates: [");
                push_samples(&mut out, suggested_keys);
                crate::bytes::push_str_bytes(&mut out, "].");
            }
        },
        RefusalKind::Dialect { file, tied_delimiters, .. } => {
            crate::bytes::push_str_bytes(&mut out, "Example: ");
            push_file_label(&mut out, *file, old_name, new_name);
            crate::bytes::push_str_bytes(&mut out, " delimiter ambiguous among [");
            push_delims(&mut out, tied_delimiters);
            crate::bytes::push_str_bytes(&mut out, "].");
        },
        RefusalKind::MixedTypes { file, record, column, value, key_value } => {
            match key_value {
                Some(k) => {
                    crate::bytes::push_str_bytes(&mut out, "Example: key \"");
                    push_ident_human(&mut out, k.as_slice());
                    crate::bytes::push_str_bytes(&mut out, "\" column \"");
                    push_ident_human(&mut out, column.as_slice());
                    crate::bytes::push_str_bytes(&mut out, "\" has non-numeric value \"");
                    push_ident_human(&mut out, value.as_slice());
                    crate::bytes::push_str_bytes(&mut out, "\".");
                },
                None => {
                    crate::bytes::push_str_bytes(&mut out, "Example: ");
                    push_file_label(&mut out, *file, old_name, new_name);
                    crate::bytes::push_str_bytes(&mut out, " data record ");
                    push_count(&mut out, *record);
                    crate::bytes::push_str_bytes(&mut out, " column \"");
                    push_ident_human(&mut out, column.as_slice());
                    crate::bytes::push_str_bytes(&mut out, "\" has non-numeric value \"");
                    push_ident_human(&mut out, value.as_slice());
                    crate::bytes::push_str_bytes(&mut out, "\".");
                },
            }
        },
        RefusalKind::NoNumeric => {
            crate::bytes::push_str_bytes(&mut out, "Example: no numeric columns in common.");
        },
        RefusalKind::Missingness { file, record, column, value, key_value } => {
            match key_value {
                Some(k) => {
                    crate::bytes::push_str_bytes(&mut out, "Example: key \"");
                    push_ident_human(&mut out, k.as_slice());
                    crate::bytes::push_str_bytes(&mut out, "\" column \"");
                    push_ident_human(&mut out, column.as_slice());
                    crate::bytes::push_str_bytes(&mut out, "\" has numeric value \"");
                    push_ident_human(&mut out, value.as_slice());
                    crate::bytes::push_str_bytes(
                        &mut out,
                        "\" while the other side is missing.",
                    );
                },
                None => {
                    crate::bytes::push_str_bytes(&mut out, "Example: ");
                    push_file_label(&mut out, *file, old_name, new_name);
                    crate::bytes::push_str_bytes(&mut out, " data record ");
                    push_count(&mut out, *record);
                    crate::bytes::push_str_bytes(&mut out, " column \"");
                    push_ident_human(&mut out, column.as_slice());
                    crate::bytes::push_str_bytes(&mut out, "\" has numeric value \"");
                    push_ident_human(&mut out, value.as_slice());
                    crate::bytes::push_str_bytes(
                        &mut out,
                        "\" while the other side is missing.",
                    );
                },
            }
        },
        RefusalKind::Diffuse { top_k_coverage_pct, threshold_pct } => {
            crate::bytes::push_str_bytes(&mut out, "Example: top_k_coverage=");
            crate::bytes::push_all(&mut out, top_k_coverage_pct.as_slice());
            crate::bytes::push_str_bytes(&mut out, " threshold=");
            crate::bytes::push_all(&mut out, threshold_pct.as_slice());
            crate::bytes::push_str_bytes(&mut out, ".");
        },
    }
    out
}

/// Render the refusal body: the fixed banner sentence, the reason, the
/// example, and the next step.
pub fn render_refusal_body(ctx: &RefusalBody) -> (r: Vec<Vec<u8>>)
    ensures
        views_of(r@) == seq![
            "Cannot produce a verdict.".spec_bytes(),
            "Reason (".spec_bytes() + spec_code_bytes(ctx.code) + "): ".spec_bytes()
                + spec_reason_bytes(ctx.code) + ".".spec_bytes(),
            spec_example_line(ctx.detail.kind, ctx.old_name@, ctx.new_name@),
            "Next: ".spec_bytes() + ctx.detail.next@,
        ],
{
    let mut lines: Vec<Vec<u8>> = Vec::new();
    let mut l1: Vec<u8> = Vec::new();
    crate::bytes::push_str_bytes(&mut l1, "Cannot produce a verdict.");
    lines.push(l1);
    let mut l2: Vec<u8> = Vec::new();
    crate::bytes::push_str_bytes(&mut l2, "Reason (");
    let code = ctx.code.as_str();
    crate::bytes::push_str_bytes(&mut l2, code);
    crate::bytes::push_str_bytes(&mut l2, "): ");
    let reason = ctx.code.reason();
    crate::bytes::push_str_bytes(&mut l2, reason);
    crate::bytes::push_str_bytes(&mut l2, ".");
    lines.push(l2);
    lines.push(render_example_line(&ctx.detail, &ctx.old_name, &ctx.new_name));
    let mut l4: Vec<u8> = Vec::new();
    crate::bytes::push_str_bytes(&mut l4, "Next: ");
    crate::bytes::push_all(&mut l4, ctx.detail.next.as_slice());
    lines.push(l4);
    proof {
        assert(views_of(lines@) =~= seq![
            "Cannot produce a verdict.".spec_bytes(),
            "Reason (".spec_bytes() + spec_code_bytes(ctx.code) + "): ".spec_bytes()
                + spec_reason_bytes(ctx.code) + ".".spec_bytes(),
            spec_example_line(ctx.detail.kind, ctx.old_name@, ctx.new_name@),
            "Next: ".spec_bytes() + ctx.detail.next@,
        ]);
    }
    lines
}

} // verus!
