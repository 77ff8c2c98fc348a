//! Delimiter auto-detection: scoring, tie-breaking, and its refusals.
//!
//! Each candidate delimiter is sampled under RFC quoting first, falling
//! back to backslash escaping when the quote validator rejects the input.
//! A sample takes the header row plus up to 200 non-blank data records or
//! 64 KiB, whichever comes first; its score is the lexicographic triple
//! (records parsed, mode count, mode field-width), with field widths
//! collapsed to the header width when the extra fields are all blank.

use vstd::prelude::*;

use crate::blank::{spec_is_blank_line, spec_is_blank_record, spec_nl_index};
use crate::bytes::{views_of, views_of_records};
use crate::parser::{
    spec_csv_ends, spec_csv_records, spec_quotes_valid, validate_quotes, CsvParseError, EscapeMode,
};
use crate::trim::spec_is_blank_seq;

verus! {

/// Candidate delimiters for auto-detection, in preference order: comma,
/// tab, semicolon, pipe, caret.
pub open spec fn spec_candidates() -> Seq<u8> {
    seq![0x2Cu8, 0x09, 0x3B, 0x7C, 0x5E]
}

/// The position of a delimiter in the preference order; past the end for
/// a byte that is no candidate.
pub open spec fn spec_cand_rank(d: u8) -> int {
    if d == 0x2C {
        0
    } else if d == 0x09 {
        1
    } else if d == 0x3B {
        2
    } else if d == 0x7C {
        3
    } else if d == 0x5E {
        4
    } else {
        5
    }
}

/// The sample caps: header plus at most this many non-blank data records.
pub const MAX_DATA_RECORDS: usize = 200;

/// The sample caps: records beginning past this offset are not sampled.
pub const MAX_SAMPLE_BYTES: usize = 65536;

/// Scoring tuple for delimiter candidates.
#[derive(Debug, Clone, Copy, PartialEq, Eq, Structural)]
pub struct DialectScore {
    pub records_parsed: u64,
    pub mode_count: u64,
    pub mode_fields: usize,
}

/// Detected CSV dialect (delimiter and escape mode).
#[derive(Debug, Clone, Copy, PartialEq, Eq, Structural)]
pub struct Dialect {
    pub delimiter: u8,
    pub quote: u8,
    pub escape: EscapeMode,
    pub header_fields: usize,
    pub score: DialectScore,
}

/// Auto-detection failures.
#[derive(Debug, Clone, PartialEq, Eq)]
pub enum DialectError {
    /// Could not parse records under any candidate delimiter.
    CsvParse { error: Option<CsvParseError> },
    /// Ambiguous delimiter choice (tied scores with differing samples).
    Ambiguous { tied: Vec<u8> },
    /// Auto-detect produced a single-column header (guardrail refusal).
    SingleColumn { delimiter: u8 },
    /// No header line found after leading blank lines.
    NoHeader,
}

/// The input after skipping leading blank lines (or empty when every line
/// is blank).
pub open spec fn spec_skip_blank_lines(s: Seq<u8>) -> Seq<u8>
    decreases s.len(),
{
    if s.len() == 0 {
        s
    } else {
        let i = spec_nl_index(s);
        let line = if i < 0 || i > s.len() {
            s
        } else {
            s.take(i)
        };
        if !spec_is_blank_line(line) {
            s
        } else if i < 0 || i >= s.len() {
            Seq::<u8>::empty()
        } else {
            spec_skip_blank_lines(s.skip(i + 1))
        }
    }
}

/// The field count used for scoring: collapsed to the header width when
/// the record is not longer, or longer only by blank fields.
pub open spec fn spec_effective_count(rec: Seq<Seq<u8>>, header: int) -> int {
    if rec.len() <= header {
        header
    } else if forall|i: int| header <= i < rec.len() ==> spec_is_blank_seq(#[trigger] rec[i]) {
        header
    } else {
        rec.len() as int
    }
}

/// Trailing blank fields dropped, down to the header width.
pub open spec fn spec_drop_trailing_blank(rec: Seq<Seq<u8>>, header: int) -> Seq<Seq<u8>>
    decreases rec.len(),
{
    if rec.len() > header && rec.len() > 0 && spec_is_blank_seq(rec[rec.len() - 1]) {
        spec_drop_trailing_blank(rec.drop_last(), header)
    } else {
        rec
    }
}

/// A record normalized for sample comparison: short records padded with
/// empty fields to the header width, long ones stripped of trailing blank
/// fields (stopping at the first non-blank).
pub open spec fn spec_norm_for_compare(rec: Seq<Seq<u8>>, header: int) -> Seq<Seq<u8>> {
    if rec.len() < header {
        rec + Seq::new((header - rec.len()) as nat, |i: int| Seq::<u8>::empty())
    } else if rec.len() > header {
        spec_drop_trailing_blank(rec, header)
    } else {
        rec
    }
}

/// How many entries of `counts` equal `v`.
pub open spec fn spec_count_of(counts: Seq<int>, v: int) -> int
    decreases counts.len(),
{
    if counts.len() == 0 {
        0
    } else {
        (if counts[counts.len() - 1] == v {
            1int
        } else {
            0int
        }) + spec_count_of(counts.drop_last(), v)
    }
}

/// The (count, fields) mode fold over the sampled field counts: highest
/// count wins, larger field width breaking ties.
pub open spec fn spec_mode_fold(counts: Seq<int>, k: int, mc: int, mf: int) -> (int, int)
    decreases counts.len() - k,
{
    if k < 0 || k >= counts.len() {
        (mc, mf)
    } else {
        let v = counts[k];
        let c = spec_count_of(counts, v);
        if c > mc || (c == mc && v > mf) {
            spec_mode_fold(counts, k + 1, c, v)
        } else {
            spec_mode_fold(counts, k + 1, mc, mf)
        }
    }
}

/// The mode pair of a sample.
pub open spec fn spec_mode(counts: Seq<int>) -> (int, int) {
    spec_mode_fold(counts, 0, 0, 0)
}

/// The sampled effective field counts: the walk over parsed records,
/// skipping blank data records, stopping after 200 data records or past
/// the byte cap.
pub open spec fn spec_sample_walk(
    records: Seq<Seq<Seq<u8>>>,
    ends: Seq<int>,
    k: int,
    header: int,
    data: int,
    counts: Seq<int>,
    norm: Seq<Seq<Seq<u8>>>,
) -> (Seq<int>, Seq<Seq<Seq<u8>>>)
    decreases records.len() - k,
{
    if k < 0 || k >= records.len() {
        (counts, norm)
    } else {
        let rec = records[k];
        if spec_is_blank_record(rec) {
            if ends[k] >= MAX_SAMPLE_BYTES {
                (counts, norm)
            } else {
                spec_sample_walk(records, ends, k + 1, header, data, counts, norm)
            }
        } else if data + 1 > MAX_DATA_RECORDS {
            (counts, norm)
        } else {
            let c2 = counts.push(spec_effective_count(rec, header));
            let n2 = norm.push(spec_norm_for_compare(rec, header));
            if ends[k] >= MAX_SAMPLE_BYTES {
                (c2, n2)
            } else {
                spec_sample_walk(records, ends, k + 1, header, data + 1, c2, n2)
            }
        }
    }
}

/// The header width of a sample under one escape mode (0 when no records).
pub open spec fn spec_sample_header(input: Seq<u8>, d: u8, bs: bool) -> int {
    let records = spec_csv_records(input, d, bs);
    if records.len() == 0 {
        0
    } else {
        records[0].len() as int
    }
}

/// The sampled counts and comparison records under one escape mode.
pub open spec fn spec_sample_lists(input: Seq<u8>, d: u8, bs: bool) -> (
    Seq<int>,
    Seq<Seq<Seq<u8>>>,
) {
    let records = spec_csv_records(input, d, bs);
    let ends = spec_csv_ends(input, d, bs);
    if records.len() == 0 {
        (Seq::<int>::empty(), Seq::<Seq<Seq<u8>>>::empty())
    } else {
        let header = records[0].len() as int;
        let c0 = seq![spec_effective_count(records[0], header)];
        let n0 = seq![spec_norm_for_compare(records[0], header)];
        if ends[0] >= MAX_SAMPLE_BYTES {
            (c0, n0)
        } else {
            spec_sample_walk(records, ends, 1, header, 0, c0, n0)
        }
    }
}

/// Whether a candidate delimiter produces a usable sample, and in which
/// escape mode: RFC when its quote check passes, else backslash.
pub open spec fn spec_cand_bs(input: Seq<u8>, d: u8) -> bool {
    !spec_quotes_valid(input, d, false) && spec_quotes_valid(input, d, true)
}

/// A candidate is included when its chosen escape mode validates and the
/// sample holds at least one record.
pub open spec fn spec_cand_ok(input: Seq<u8>, d: u8) -> bool {
    let bs = spec_cand_bs(input, d);
    (spec_quotes_valid(input, d, false) || spec_quotes_valid(input, d, true))
        && spec_sample_lists(input, d, bs).0.len() > 0
}

/// The score triple of an included candidate.
pub open spec fn spec_cand_score(input: Seq<u8>, d: u8) -> (int, int, int) {
    let bs = spec_cand_bs(input, d);
    let (counts, _norm) = spec_sample_lists(input, d, bs);
    let (mc, mf) = spec_mode(counts);
    (counts.len() as int, mc, mf)
}

/// Lexicographic order on score triples.
pub open spec fn score_le(a: (int, int, int), b: (int, int, int)) -> bool {
    a.0 < b.0 || (a.0 == b.0 && (a.1 < b.1 || (a.1 == b.1 && a.2 <= b.2)))
}

/// A candidate delimiter ties the best score.
pub open spec fn spec_is_tied(input: Seq<u8>, d: u8) -> bool {
    &&& spec_candidates().contains(d)
    &&& spec_cand_ok(input, d)
    &&& forall|j: int|
        0 <= j < spec_candidates().len() && spec_cand_ok(input, #[trigger] spec_candidates()[j])
            ==> score_le(
            spec_cand_score(input, spec_candidates()[j]),
            spec_cand_score(input, d),
        )
}

/// The comparison samples of two candidates are identical.
pub open spec fn spec_samples_equal(input: Seq<u8>, d1: u8, d2: u8) -> bool {
    spec_sample_lists(input, d1, spec_cand_bs(input, d1)).1 == spec_sample_lists(
        input,
        d2,
        spec_cand_bs(input, d2),
    ).1
}

/// The header width of a candidate's chosen sample.
pub open spec fn spec_cand_header(input: Seq<u8>, d: u8) -> int {
    spec_sample_header(input, d, spec_cand_bs(input, d))
}

/// Skip leading blank lines (spaces and tabs, with optional CR) of the
/// buffer.
pub fn skip_leading_blank_lines(input: &[u8]) -> (r: &[u8])
    ensures
        r@ == spec_skip_blank_lines(input@),
{
    let n = input.len();
    let mut pos: usize = 0;
    proof {
        assert(input@.skip(0) =~= input@);
    }
    loop
        invariant
            0 <= pos <= n,
            n == input@.len(),
            spec_skip_blank_lines(input@) == spec_skip_blank_lines(input@.skip(pos as int)),
        decreases n - pos,
    {
        let ghost rest = input@.skip(pos as int);
        if pos == n {
            proof {
                assert(rest.len() == 0);
            }
            let r = vstd::slice::slice_subrange(input, pos, n);
            proof {
                assert(r@ =~= rest);
            }
            return r;
        }
        match crate::blank::find_nl_from(input, pos) {
            Some(j) => {
                proof {
                    crate::bytes::lemma_first_index_props(rest, |b: u8| b == 0x0A);
                    assert(rest.take(j - pos) =~= input@.subrange(pos as int, j as int));
                    assert(rest.skip(j - pos + 1) =~= input@.skip(j + 1));
                }
                let line = vstd::slice::slice_subrange(input, pos, j);
                if crate::blank::is_blank_line(line) {
                    pos = j + 1;
                } else {
                    let r = vstd::slice::slice_subrange(input, pos, n);
                    proof {
                        assert(r@ =~= rest);
                    }
                    return r;
                }
            },
            None => {
                let line = vstd::slice::slice_subrange(input, pos, n);
                proof {
                    assert(line@ =~= rest);
                }
                if crate::blank::is_blank_line(line) {
                    let r = vstd::slice::slice_subrange(input, n, n);
                    proof {
                        assert(r@ =~= Seq::<u8>::empty());
                    }
                    return r;
                } else {
                    let r = vstd::slice::slice_subrange(input, pos, n);
                    proof {
                        assert(r@ =~= rest);
                    }
                    return r;
                }
            },
        }
    }
}

fn effective_count(rec: &Vec<Vec<u8>>, header: usize) -> (r: usize)
    ensures
        r as int == spec_effective_count(views_of(rec@), header as int),
{
    let n = rec.len();
    if n <= header {
        return header;
    }
    let mut i: usize = header;
    while i < n
        invariant
            header <= i <= n,
            n == rec@.len(),
            n > header,
            forall|j: int| header <= j < i ==> spec_is_blank_seq(#[trigger] views_of(rec@)[j]),
        decreases n - i,
    {
        proof {
            assert(views_of(rec@)[i as int] == rec@[i as int]@);
        }
        if !crate::trim::is_ascii_blank_slice(rec[i].as_slice()) {
            return n;
        }
        i = i + 1;
    }
    header
}

fn norm_for_compare(rec: &Vec<Vec<u8>>, header: usize) -> (r: Vec<Vec<u8>>)
    ensures
        views_of(r@) == spec_norm_for_compare(views_of(rec@), header as int),
{
    let n = rec.len();
    let mut out: Vec<Vec<u8>> = Vec::new();
    let mut i: usize = 0;
    while i < n
        invariant
            0 <= i <= n,
            n == rec@.len(),
            views_of(out@) =~= views_of(rec@).take(i as int),
            out@.len() == i,
        decreases n - i,
    {
        proof {
            assert(views_of(rec@)[i as int] == rec@[i as int]@);
        }
        let ghost pre = views_of(out@);
        let f = crate::bytes::to_vec_bytes(rec[i].as_slice());
        out.push(f);
        proof {
            assert(views_of(out@) =~= pre.push(rec@[i as int]@));
            assert(views_of(out@) =~= views_of(rec@).take(i + 1));
        }
        i = i + 1;
    }
    proof {
        assert(views_of(out@) =~= views_of(rec@));
    }
    if n < header {
        let mut j: usize = n;
        while j < header
            invariant
                n <= j <= header,
                n == rec@.len(),
                out@.len() == j,
                views_of(out@) =~= views_of(rec@) + Seq::new(
                    (j - n) as nat,
                    |i: int| Seq::<u8>::empty(),
                ),
            decreases header - j,
        {
            let ghost pre = views_of(out@);
            out.push(Vec::new());
            proof {
                assert(views_of(out@) =~= pre.push(Seq::<u8>::empty()));
                assert(views_of(out@) =~= views_of(rec@) + Seq::new(
                    (j + 1 - n) as nat,
                    |i: int| Seq::<u8>::empty(),
                ));
            }
            j = j + 1;
        }
        proof {
            assert(views_of(out@) =~= spec_norm_for_compare(views_of(rec@), header as int));
        }
        out
    } else if n > header {
        loop
            invariant
                views_of(rec@).len() > header,
                spec_drop_trailing_blank(views_of(rec@), header as int)
                    == spec_drop_trailing_blank(views_of(out@), header as int),
            decreases out@.len(),
        {
            let len = out.len();
            if len > header {
                proof {
                    assert(views_of(out@)[len - 1] == out@[len - 1]@);
                }
                if crate::trim::is_ascii_blank_slice(out[len - 1].as_slice()) {
                    let ghost pre = views_of(out@);
                    out.pop();
                    proof {
                        assert(views_of(out@) =~= pre.drop_last());
                    }
                } else {
                    proof {
                        assert(spec_drop_trailing_blank(views_of(out@), header as int)
                            =~= views_of(out@));
                    }
                    return out;
                }
            } else {
                proof {
                    assert(spec_drop_trailing_blank(views_of(out@), header as int) =~= views_of(
                        out@,
                    ));
                }
                return out;
            }
        }
    } else {
        out
    }
}

fn count_occurrences(counts: &Vec<usize>, v: usize) -> (r: usize)
    ensures
        r as int == spec_count_of(counts@.map_values(|c: usize| c as int), v as int),
{
    let ghost m = counts@.map_values(|c: usize| c as int);
    let n = counts.len();
    let mut c: usize = 0;
    let mut j: usize = 0;
    proof {
        assert(m.take(0) =~= Seq::<int>::empty());
    }
    while j < n
        invariant
            0 <= j <= n,
            n == counts@.len(),
            m == counts@.map_values(|c: usize| c as int),
            c <= j,
            c as int == spec_count_of(m.take(j as int), v as int),
        decreases n - j,
    {
        proof {
            let t = m.take(j + 1);
            assert(t.drop_last() =~= m.take(j as int));
            assert(t[t.len() - 1] == m[j as int]);
        }
        if counts[j] == v {
            c = c + 1;
        }
        j = j + 1;
    }
    proof {
        assert(m.take(n as int) =~= m);
    }
    c
}

fn mode_of(counts: &Vec<usize>) -> (r: (u64, usize))
    ensures
        ({
            let (mc, mf) = spec_mode(counts@.map_values(|c: usize| c as int));
            r.0 as int == mc && r.1 as int == mf
        }),
{
    let ghost m = counts@.map_values(|c: usize| c as int);
    let n = counts.len();
    let mut mc: u64 = 0;
    let mut mf: usize = 0;
    let mut k: usize = 0;
    while k < n
        invariant
            0 <= k <= n,
            n == counts@.len(),
            m == counts@.map_values(|c: usize| c as int),
            spec_mode(m) == spec_mode_fold(m, k as int, mc as int, mf as int),
            mc <= n as u64,
        decreases n - k,
    {
        let v = counts[k];
        let c = count_occurrences(counts, v);
        proof {
            lemma_count_le_len(m, v as int);
        }
        if c as u64 > mc || (c as u64 == mc && v > mf) {
            mc = c as u64;
            mf = v;
        }
        k = k + 1;
    }
    (mc, mf)
}

proof fn lemma_count_le_len(m: Seq<int>, v: int)
    ensures
        0 <= spec_count_of(m, v) <= m.len(),
    decreases m.len(),
{
    if m.len() > 0 {
        lemma_count_le_len(m.drop_last(), v);
    }
}

/// A sample of the input under one delimiter and escape mode.
struct SampleOut {
    ok: bool,
    header_fields: usize,
    counts: Vec<usize>,
    norm: Vec<Vec<Vec<u8>>>,
}

#[verifier::rlimit(80)]
fn sample(input: &[u8], d: u8, escape: EscapeMode) -> (s: SampleOut)
    ensures
        s.ok == spec_quotes_valid(input@, d, escape == EscapeMode::Backslash),
        s.ok ==> ({
            let bs = (escape == EscapeMode::Backslash);
            let lists = spec_sample_lists(input@, d, bs);
            &&& s.counts@.map_values(|c: usize| c as int) == lists.0
            &&& views_of_records(s.norm@) == lists.1
            &&& s.header_fields as int == spec_sample_header(input@, d, bs)
        }),
{
    let ghost bs_g = (escape == EscapeMode::Backslash);
    if !validate_quotes(input, d, escape) {
        return SampleOut { ok: false, header_fields: 0, counts: Vec::new(), norm: Vec::new() };
    }
    let (records, ends) = crate::parser::read_records_with_ends(input, d, escape);
    let ghost recs = views_of_records(records@);
    let ghost ends_g = ends@.map_values(|e: usize| e as int);
    let rn = records.len();
    if rn == 0 {
        let s = SampleOut { ok: true, header_fields: 0, counts: Vec::new(), norm: Vec::new() };
        proof {
            assert(s.counts@.map_values(|c: usize| c as int) =~= Seq::<int>::empty());
            assert(views_of_records(s.norm@) =~= Seq::<Seq<Seq<u8>>>::empty());
        }
        return s;
    }
    let header = records[0].len();
    proof {
        assert(recs[0] == views_of(records@[0]@));
    }
    let mut counts: Vec<usize> = Vec::new();
    let mut norm: Vec<Vec<Vec<u8>>> = Vec::new();
    counts.push(effective_count(&records[0], header));
    let n0 = norm_for_compare(&records[0], header);
    norm.push(n0);
    proof {
        assert(counts@.map_values(|c: usize| c as int) =~= seq![
            spec_effective_count(recs[0], header as int),
        ]);
        assert(views_of_records(norm@) =~= seq![
            spec_norm_for_compare(recs[0], header as int),
        ]);
    }
    if ends[0] >= MAX_SAMPLE_BYTES {
        return SampleOut { ok: true, header_fields: header, counts, norm };
    }
    let mut k: usize = 1;
    let mut data: usize = 0;
    loop
        invariant_except_break
            1 <= k <= rn,
            rn == records@.len(),
            0 <= data <= MAX_DATA_RECORDS,
            recs == views_of_records(records@),
            ends_g == ends@.map_values(|e: usize| e as int),
            ends@.len() == records@.len(),
            header as int == spec_sample_header(input@, d, bs_g),
            spec_sample_lists(input@, d, bs_g) == spec_sample_walk(
                recs,
                ends_g,
                k as int,
                header as int,
                data as int,
                counts@.map_values(|c: usize| c as int),
                views_of_records(norm@),
            ),
        ensures
            spec_sample_lists(input@, d, bs_g) == (
                counts@.map_values(|c: usize| c as int),
                views_of_records(norm@),
            ),
        decreases rn - k,
    {
        if k == rn {
            break ;
        }
        proof {
            assert(recs[k as int] == views_of(records@[k as int]@));
            assert(ends_g[k as int] == ends@[k as int] as int);
        }
        if crate::blank::is_blank_record(&records[k]) {
            if ends[k] >= MAX_SAMPLE_BYTES {
                break ;
            }
            k = k + 1;
        } else {
            if data + 1 > MAX_DATA_RECORDS {
                break ;
            }
            let ghost pre_counts = counts@.map_values(|c: usize| c as int);
            let ghost pre_norm = views_of_records(norm@);
            counts.push(effective_count(&records[k], header));
            let nk = norm_for_compare(&records[k], header);
            norm.push(nk);
            proof {
                assert(counts@.map_values(|c: usize| c as int) =~= pre_counts.push(
                    spec_effective_count(recs[k as int], header as int),
                ));
                assert(views_of_records(norm@) =~= pre_norm.push(
                    spec_norm_for_compare(recs[k as int], header as int),
                ));
            }
            if ends[k] >= MAX_SAMPLE_BYTES {
                break ;
            }
            data = data + 1;
            k = k + 1;
        }
    }
    SampleOut { ok: true, header_fields: header, counts, norm }
}

fn record_views_equal(a: &Vec<Vec<u8>>, b: &Vec<Vec<u8>>) -> (r: bool)
    ensures
        r == (views_of(a@) == views_of(b@)),
{
    let n = a.len();
    if n != b.len() {
        proof {
            assert(views_of(a@).len() != views_of(b@).len());
        }
        return false;
    }
    let mut i: usize = 0;
    while i < n
        invariant
            0 <= i <= n,
            n == a@.len() && n == b@.len(),
            forall|j: int| 0 <= j < i ==> views_of(a@)[j] == views_of(b@)[j],
        decreases n - i,
    {
        proof {
            assert(views_of(a@)[i as int] == a@[i as int]@);
            assert(views_of(b@)[i as int] == b@[i as int]@);
        }
        if !crate::bytes::bytes_eq(a[i].as_slice(), b[i].as_slice()) {
            return false;
        }
        i = i + 1;
    }
    proof {
        assert(views_of(a@) =~= views_of(b@));
    }
    true
}

fn records_views_equal(a: &Vec<Vec<Vec<u8>>>, b: &Vec<Vec<Vec<u8>>>) -> (r: bool)
    ensures
        r == (views_of_records(a@) == views_of_records(b@)),
{
    let n = a.len();
    if n != b.len() {
        proof {
            assert(views_of_records(a@).len() != views_of_records(b@).len());
        }
        return false;
    }
    let mut i: usize = 0;
    while i < n
        invariant
            0 <= i <= n,
            n == a@.len() && n == b@.len(),
            forall|j: int| 0 <= j < i ==> views_of_records(a@)[j] == views_of_records(b@)[j],
        decreases n - i,
    {
        proof {
            assert(views_of_records(a@)[i as int] == views_of(a@[i as int]@));
            assert(views_of_records(b@)[i as int] == views_of(b@[i as int]@));
        }
        if !record_views_equal(&a[i], &b[i]) {
            return false;
        }
        i = i + 1;
    }
    proof {
        assert(views_of_records(a@) =~= views_of_records(b@));
    }
    true
}

/// The score triple stored for an included candidate, as spec ints.
pub open spec fn score_at(s: Seq<(u64, u64, usize)>, j: int) -> (int, int, int) {
    (s[j].0 as int, s[j].1 as int, s[j].2 as int)
}

fn score_lt(a: (u64, u64, usize), b: (u64, u64, usize)) -> (r: bool)
    ensures
        r == !score_le((b.0 as int, b.1 as int, b.2 as int), (a.0 as int, a.1 as int, a.2 as int)),
{
    if a.0 != b.0 {
        a.0 < b.0
    } else if a.1 != b.1 {
        a.1 < b.1
    } else {
        a.2 < b.2
    }
}

proof fn lemma_candidates_distinct()
    ensures
        forall|i: int, j: int|
            0 <= i < j < spec_candidates().len() ==> spec_candidates()[i] != spec_candidates()[j],
{
}

/// Everything auto-detection promises of a successful dialect choice.
pub open spec fn spec_auto_ok(input: Seq<u8>, dl: Dialect) -> bool {
    let t = spec_skip_blank_lines(input);
    &&& spec_is_tied(t, dl.delimiter)
    &&& dl.header_fields as int == spec_cand_header(t, dl.delimiter)
    &&& dl.header_fields != 1
    &&& dl.quote == 0x22
    &&& (dl.escape == EscapeMode::Backslash) == spec_cand_bs(t, dl.delimiter)
    &&& (dl.score.records_parsed as int, dl.score.mode_count as int, dl.score.mode_fields as int)
        == spec_cand_score(t, dl.delimiter)
    &&& forall|d2: u8| spec_is_tied(t, d2) ==> spec_samples_equal(t, dl.delimiter, d2)
    &&& forall|d2: u8| spec_is_tied(t, d2) ==> spec_cand_rank(dl.delimiter) <= spec_cand_rank(d2)
}

/// Everything auto-detection promises of a failure report.
pub open spec fn spec_auto_err(input: Seq<u8>, e: DialectError) -> bool {
    let t = spec_skip_blank_lines(input);
    match e {
        DialectError::NoHeader => t.len() == 0,
        DialectError::CsvParse { .. } => {
            &&& t.len() > 0
            &&& forall|j: int|
                0 <= j < spec_candidates().len() ==> !spec_cand_ok(
                    t,
                    #[trigger] spec_candidates()[j],
                )
        },
        DialectError::Ambiguous { tied } => {
            &&& t.len() > 0
            &&& tied@.len() >= 2
            &&& forall|i: int| 0 <= i < tied@.len() ==> spec_is_tied(t, #[trigger] tied@[i])
            &&& exists|i: int, j: int|
                0 <= i < tied@.len() && 0 <= j < tied@.len() && !spec_samples_equal(
                    t,
                    tied@[i],
                    tied@[j],
                )
            &&& forall|i: int, j: int|
                #![trigger tied@[i], tied@[j]]
                0 <= i < j < tied@.len() ==> spec_cand_rank(tied@[i]) < spec_cand_rank(tied@[j])
            &&& forall|d2: u8| spec_is_tied(t, d2) ==> tied@.contains(d2)
        },
        DialectError::SingleColumn { delimiter } => {
            &&& spec_is_tied(t, delimiter)
            &&& spec_cand_header(t, delimiter) == 1
            &&& forall|d2: u8| spec_is_tied(t, d2) ==> spec_samples_equal(t, delimiter, d2)
            &&& forall|d2: u8|
                spec_is_tied(t, d2) ==> spec_cand_rank(delimiter) <= spec_cand_rank(d2)
        },
    }
}

/// Auto-detect the delimiter and escape mode for a CSV input.
///
/// Scores each candidate delimiter, keeps those tied on the best score,
/// and refuses when tied candidates disagree on the sampled records or
/// when the winner parses a single-column header.
#[verifier::rlimit(100)]
#[verifier::spinoff_prover]
pub fn auto_detect(input: &[u8]) -> (r: Result<Dialect, DialectError>)
    ensures
        r matches Ok(dl) ==> spec_auto_ok(input@, dl),
        r matches Err(e) ==> spec_auto_err(input@, e),
{
    let trimmed = skip_leading_blank_lines(input);
    let ghost t = trimmed@;
    if trimmed.len() == 0 {
        return Err(DialectError::NoHeader);
    }
    let mut cands: Vec<u8> = Vec::new();
    cands.push(0x2C);
    cands.push(0x09);
    cands.push(0x3B);
    cands.push(0x7C);
    cands.push(0x5E);
    proof {
        assert(cands@ =~= spec_candidates());
    }
    // probe every candidate
    let mut inc_d: Vec<u8> = Vec::new();
    let mut inc_bs: Vec<bool> = Vec::new();
    let mut inc_header: Vec<usize> = Vec::new();
    let mut inc_score: Vec<(u64, u64, usize)> = Vec::new();
    let mut inc_norm: Vec<Vec<Vec<Vec<u8>>>> = Vec::new();
    let mut k: usize = 0;
    while k < 5
        invariant
            0 <= k <= 5,
            cands@ == spec_candidates(),
            t == spec_skip_blank_lines(input@),
            t == trimmed@,
            t.len() > 0,
            inc_d@.len() == inc_bs@.len() && inc_d@.len() == inc_header@.len() && inc_d@.len()
                == inc_score@.len() && inc_d@.len() == inc_norm@.len(),
            forall|j: int|
                0 <= j < inc_d@.len() ==> spec_cand_ok(t, #[trigger] inc_d@[j]) && spec_candidates(
                ).contains(inc_d@[j]),
            forall|j: int|
                0 <= j < inc_d@.len() ==> #[trigger] inc_bs@[j] == spec_cand_bs(t, inc_d@[j]),
            forall|j: int|
                0 <= j < inc_d@.len() ==> #[trigger] inc_header@[j] as int == spec_cand_header(
                    t,
                    inc_d@[j],
                ),
            forall|j: int|
                0 <= j < inc_d@.len() ==> #[trigger] score_at(inc_score@, j) == spec_cand_score(
                    t,
                    inc_d@[j],
                ),
            forall|j: int|
                0 <= j < inc_d@.len() ==> #[trigger] views_of_records(inc_norm@[j]@)
                    == spec_sample_lists(t, inc_d@[j], spec_cand_bs(t, inc_d@[j])).1,
            forall|j: int|
                0 <= j < k ==> (spec_cand_ok(t, #[trigger] spec_candidates()[j])
                    <==> inc_d@.contains(spec_candidates()[j])),
            forall|j: int| 0 <= j < inc_d@.len() ==> spec_cand_rank(#[trigger] inc_d@[j]) < k,
            forall|a: int, b: int|
                #![trigger inc_d@[a], inc_d@[b]]
                0 <= a < b < inc_d@.len() ==> spec_cand_rank(inc_d@[a]) < spec_cand_rank(
                    inc_d@[b],
                ),
        decreases 5 - k,
    {
        let d = cands[k];
        proof {
            assert(spec_candidates()[k as int] == d);
            assert(spec_candidates().contains(d));
        }
        let rfc = sample(trimmed, d, EscapeMode::Rfc);
        let rfc_ok = rfc.ok;
        let chosen: Option<SampleOut> = if rfc_ok {
            Some(rfc)
        } else {
            let bsl = sample(trimmed, d, EscapeMode::Backslash);
            if bsl.ok {
                Some(bsl)
            } else {
                None
            }
        };
        let ghost pre = inc_d@;
        match chosen {
            Some(smp) => {
                proof {
                    assert(spec_cand_bs(t, d) == !rfc_ok);
                }
                if smp.counts.len() > 0 {
                    let (mc, mf) = mode_of(&smp.counts);
                    let rp = smp.counts.len() as u64;
                    let ghost pre_score = inc_score@;
                    inc_d.push(d);
                    inc_bs.push(!rfc_ok);
                    inc_header.push(smp.header_fields);
                    inc_score.push((rp, mc, mf));
                    inc_norm.push(smp.norm);
                    proof {
                        assert(spec_cand_rank(d) == k as int);
                        assert(inc_d@ =~= pre.push(d));
                        assert(inc_d@[inc_d@.len() - 1] == d);
                        assert(inc_d@.contains(d));
                        assert(spec_cand_ok(t, d));
                        assert forall|j: int|
                            0 <= j < inc_d@.len() implies #[trigger] score_at(inc_score@, j)
                            == spec_cand_score(t, inc_d@[j]) by {
                            if j < pre.len() {
                                assert(inc_score@[j] == pre_score[j]);
                                assert(inc_d@[j] == pre[j]);
                                assert(score_at(pre_score, j) == spec_cand_score(t, pre[j]));
                            } else {
                                assert(inc_score@[j] == (rp, mc, mf));
                                assert(inc_d@[j] == d);
                            }
                        }
                        assert forall|j: int|
                            0 <= j < k + 1 implies (spec_cand_ok(
                            t,
                            #[trigger] spec_candidates()[j],
                        ) <==> inc_d@.contains(spec_candidates()[j])) by {
                            if j < k {
                                if inc_d@.contains(spec_candidates()[j]) {
                                    let w = choose|w: int|
                                        0 <= w < inc_d@.len() && inc_d@[w] == spec_candidates()[j];
                                    if w < pre.len() {
                                        assert(pre[w] == spec_candidates()[j]);
                                        assert(pre.contains(spec_candidates()[j]));
                                    } else {
                                        assert(inc_d@[w] == d);
                                        assert(spec_cand_ok(t, spec_candidates()[j]));
                                    }
                                }
                                if spec_cand_ok(t, spec_candidates()[j]) {
                                    assert(pre.contains(spec_candidates()[j]));
                                    let w = choose|w: int|
                                        0 <= w < pre.len() && pre[w] == spec_candidates()[j];
                                    assert(inc_d@[w] == spec_candidates()[j]);
                                    assert(inc_d@.contains(spec_candidates()[j]));
                                }
                            }
                        }
                    }
                } else {
                    proof {
                        assert(spec_sample_lists(t, d, spec_cand_bs(t, d)).0.len() == 0);
                        assert(!spec_cand_ok(t, d));
                        assert forall|j: int|
                            0 <= j < k + 1 implies (spec_cand_ok(
                            t,
                            #[trigger] spec_candidates()[j],
                        ) <==> inc_d@.contains(spec_candidates()[j])) by {
                            if j == k && inc_d@.contains(spec_candidates()[j]) {
                                let w = choose|w: int|
                                    0 <= w < inc_d@.len() && inc_d@[w] == spec_candidates()[j];
                                assert(spec_cand_ok(t, inc_d@[w]));
                            }
                        }
                    }
                }
            },
            None => {
                proof {
                    assert(!spec_cand_ok(t, d));
                    assert forall|j: int|
                        0 <= j < k + 1 implies (spec_cand_ok(t, #[trigger] spec_candidates()[j])
                        <==> inc_d@.contains(spec_candidates()[j])) by {
                        if j == k && inc_d@.contains(spec_candidates()[j]) {
                            let w = choose|w: int|
                                0 <= w < inc_d@.len() && inc_d@[w] == spec_candidates()[j];
                            assert(spec_cand_ok(t, inc_d@[w]));
                        }
                    }
                }
            },
        }
        k = k + 1;
    }
    if inc_d.len() == 0 {
        return Err(
            DialectError::CsvParse {
                error: Some(
                    CsvParseError { escape_mode: EscapeMode::Rfc, record: None, line: None },
                ),
            },
        );
    }
    // best score
    let m = inc_d.len();
    let mut best: usize = 0;
    let mut bi: usize = 1;
    while bi < m
        invariant
            0 <= best < bi <= m,
            m == inc_d@.len() && m == inc_score@.len(),
            forall|j: int|
                0 <= j < bi ==> score_le(
                    #[trigger] score_at(inc_score@, j),
                    score_at(inc_score@, best as int),
                ),
        decreases m - bi,
    {
        if score_lt(inc_score[best], inc_score[bi]) {
            best = bi;
        }
        bi = bi + 1;
    }
    // the chosen one must beat every included candidate, hence every
    // spec-included candidate
    proof {
        assert(score_le(score_at(inc_score@, best as int), score_at(inc_score@, best as int)));
    }
    // tied candidates, in candidate (preference) order
    let mut tied: Vec<usize> = Vec::new();
    let mut ti: usize = 0;
    while ti < m
        invariant
            0 <= ti <= m,
            0 <= best < m,
            m == inc_d@.len() && m == inc_score@.len(),
            forall|j: int| 0 <= j < tied@.len() ==> 0 <= #[trigger] tied@[j] < ti,
            forall|j: int|
                0 <= j < tied@.len() ==> inc_score@[#[trigger] tied@[j] as int]
                    == inc_score@[best as int],
            forall|j: int|
                0 <= j < ti ==> (inc_score@[j] == inc_score@[best as int] <==> tied@.contains(
                    j as usize,
                )),
            forall|a: int, b: int|
                #![trigger tied@[a], tied@[b]]
                0 <= a < b < tied@.len() ==> tied@[a] < tied@[b],
        decreases m - ti,
    {
        let s1 = inc_score[ti];
        let s2 = inc_score[best];
        let ghost pre = tied@;
        if s1.0 == s2.0 && s1.1 == s2.1 && s1.2 == s2.2 {
            proof {
                assert(inc_score@[ti as int] == inc_score@[best as int]);
            }
            tied.push(ti);
            proof {
                assert(tied@ =~= pre.push(ti));
            }
        }
        proof {
            assert forall|j: int|
                0 <= j < ti + 1 implies (inc_score@[j] == inc_score@[best as int]
                <==> tied@.contains(j as usize)) by {
                if pre.contains(j as usize) {
                    let w0 = choose|w0: int| 0 <= w0 < pre.len() && pre[w0] == j as usize;
                    assert(tied@[w0] == j as usize);
                    assert(tied@.contains(j as usize));
                }
                if tied@.contains(j as usize) {
                    let w = choose|w: int| 0 <= w < tied@.len() && tied@[w] == j as usize;
                    if w < pre.len() {
                        assert(pre[w] == j as usize);
                        assert(pre.contains(j as usize));
                    }
                }
                if j == ti && inc_score@[j] == inc_score@[best as int] {
                    assert(s1.0 == s2.0 && s1.1 == s2.1 && s1.2 == s2.2);
                    assert(tied@[tied@.len() - 1] == j as usize);
                    assert(tied@.contains(j as usize));
                }
            }
        }
        ti = ti + 1;
    }
    proof {
        assert(inc_score@[best as int] == inc_score@[best as int]);
        assert(tied@.contains(best));
    }
    // every spec-tied delimiter is an included index with the best score
    proof {
        assert forall|d2: u8| spec_is_tied(t, d2) implies exists|w: int|
            0 <= w < inc_d@.len() && inc_d@[w] == d2 && inc_score@[w] == inc_score@[best as int] by {
            assert(spec_candidates().contains(d2));
            let cj = choose|cj: int|
                0 <= cj < spec_candidates().len() && spec_candidates()[cj] == d2;
            assert(spec_cand_ok(t, spec_candidates()[cj]));
            assert(inc_d@.contains(d2));
            let w = choose|w: int| 0 <= w < inc_d@.len() && inc_d@[w] == d2;
            assert(score_at(inc_score@, w) == spec_cand_score(t, d2));
            assert(score_le(score_at(inc_score@, w), score_at(inc_score@, best as int)));
            let bd = inc_d@[best as int];
            assert(spec_cand_ok(t, bd));
            let bj = choose|bj: int|
                0 <= bj < spec_candidates().len() && spec_candidates()[bj] == bd;
            assert(score_le(spec_cand_score(t, bd), spec_cand_score(t, d2)));
            assert(score_at(inc_score@, best as int) == spec_cand_score(t, bd));
            assert(inc_score@[w] == inc_score@[best as int]);
        }
        // and each tied index is a spec-tied delimiter
        assert forall|w: int|
            0 <= w < inc_d@.len() && inc_score@[w] == inc_score@[best as int] implies spec_is_tied(
            t,
            inc_d@[w],
        ) by {
            assert(spec_cand_ok(t, inc_d@[w]));
            assert forall|j: int|
                0 <= j < spec_candidates().len() && spec_cand_ok(
                    t,
                    #[trigger] spec_candidates()[j],
                ) implies score_le(
                score_at(inc_score@, w),
                score_at(inc_score@, w),
            ) && score_le(
                spec_cand_score(t, spec_candidates()[j]),
                spec_cand_score(t, inc_d@[w]),
            ) by {
                assert(inc_d@.contains(spec_candidates()[j]));
                let v = choose|v: int|
                    0 <= v < inc_d@.len() && inc_d@[v] == spec_candidates()[j];
                assert(score_at(inc_score@, v) == spec_cand_score(t, spec_candidates()[j]));
                assert(score_le(score_at(inc_score@, v), score_at(inc_score@, best as int)));
                assert(score_at(inc_score@, w) == score_at(inc_score@, best as int));
                assert(score_at(inc_score@, w) == spec_cand_score(t, inc_d@[w]));
            }
        }
    }
    let chosen_idx: usize;
    let mut ambiguous = false;
    if tied.len() == 1 {
        chosen_idx = tied[0];
        proof {
            assert(tied@[0] == best || tied@.contains(best));
            let wb = choose|wb: int| 0 <= wb < tied@.len() && tied@[wb] == best;
            assert(wb == 0);
            assert(chosen_idx == best);
            // a lone tied index makes every spec-tied delimiter this one
            assert forall|d2: u8| spec_is_tied(t, d2) implies spec_samples_equal(
                t,
                inc_d@[chosen_idx as int],
                d2,
            ) by {
                let w = choose|w: int|
                    0 <= w < inc_d@.len() && inc_d@[w] == d2 && inc_score@[w] == inc_score@[best as int];
                assert(tied@.contains(w as usize));
                let ww = choose|ww: int| 0 <= ww < tied@.len() && tied@[ww] == w as usize;
                assert(ww == 0);
                assert(w == chosen_idx);
            }
        }
    } else {
        // identical samples let the preference order break the tie
        let mut all_same = true;
        let first = tied[0];
        let mut ci: usize = 1;
        let ghost tl = tied@;
        loop
            invariant_except_break
                1 <= ci <= tied@.len(),
                tied@ == tl,
                m == inc_d@.len() && m == inc_norm@.len(),
                first == tied@[0],
                forall|j: int| 0 <= j < tied@.len() ==> 0 <= #[trigger] tied@[j] < m,
                all_same,
                forall|j: int|
                    1 <= j < ci ==> views_of_records(#[trigger] inc_norm@[tied@[j] as int]@)
                        == views_of_records(inc_norm@[first as int]@),
            ensures
                tied@ == tl,
                first == tied@[0],
                all_same ==> forall|j: int|
                    1 <= j < tied@.len() ==> views_of_records(
                        #[trigger] inc_norm@[tied@[j] as int]@,
                    ) == views_of_records(inc_norm@[first as int]@),
                !all_same ==> exists|j: int|
                    1 <= j < tied@.len() && views_of_records(
                        #[trigger] inc_norm@[tied@[j] as int]@,
                    ) != views_of_records(inc_norm@[first as int]@),
            decreases tied@.len() - ci,
        {
            if ci == tied.len() {
                break ;
            }
            let e = records_views_equal(&inc_norm[tied[ci]], &inc_norm[first]);
            if !e {
                all_same = false;
                proof {
                    assert(views_of_records(inc_norm@[tied@[ci as int] as int]@)
                        != views_of_records(inc_norm@[first as int]@));
                }
                break ;
            }
            ci = ci + 1;
        }
        if all_same {
            chosen_idx = tied[0];
            proof {
                assert forall|d2: u8| spec_is_tied(t, d2) implies spec_samples_equal(
                    t,
                    inc_d@[chosen_idx as int],
                    d2,
                ) by {
                    let w = choose|w: int|
                        0 <= w < inc_d@.len() && inc_d@[w] == d2 && inc_score@[w]
                            == inc_score@[best as int];
                    assert(tied@.contains(w as usize));
                    let ww = choose|ww: int| 0 <= ww < tied@.len() && tied@[ww] == w as usize;
                    if ww > 0 {
                        assert(views_of_records(inc_norm@[tied@[ww] as int]@) == views_of_records(
                            inc_norm@[first as int]@,
                        ));
                    }
                    assert(views_of_records(inc_norm@[w as int]@) == views_of_records(
                        inc_norm@[chosen_idx as int]@,
                    ));
                }
            }
        } else {
            let ghost bad = choose|j: int|
                1 <= j < tied@.len() && views_of_records(inc_norm@[tied@[j] as int]@)
                    != views_of_records(inc_norm@[first as int]@);
            let mut tied_delims: Vec<u8> = Vec::new();
            let mut di: usize = 0;
            while di < tied.len()
                invariant
                    0 <= di <= tied@.len(),
                    tied@ == tl,
                    m == inc_d@.len(),
                    tied_delims@.len() == di,
                    forall|j: int| 0 <= j < tied@.len() ==> 0 <= #[trigger] tied@[j] < m,
                    forall|j: int|
                        0 <= j < di ==> #[trigger] tied_delims@[j] == inc_d@[tied@[j] as int],
                decreases tied@.len() - di,
            {
                tied_delims.push(inc_d[tied[di]]);
                di = di + 1;
            }
            proof {
                assert forall|i2: int| 0 <= i2 < tied_delims@.len() implies spec_is_tied(
                    t,
                    #[trigger] tied_delims@[i2],
                ) by {
                    assert(tied_delims@[i2] == inc_d@[tied@[i2] as int]);
                    assert(inc_score@[tied@[i2] as int] == inc_score@[best as int]);
                }
                // the two differing samples witness the ambiguity
                assert(views_of_records(inc_norm@[tied@[bad as int] as int]@) != views_of_records(
                    inc_norm@[first as int]@,
                ));
                assert(!spec_samples_equal(t, tied_delims@[bad as int], tied_delims@[0]));
            }
            proof {
                assert(spec_skip_blank_lines(input@).len() > 0);
                assert(tied_delims@.len() >= 2);
                assert(forall|i2: int|
                    0 <= i2 < tied_delims@.len() ==> spec_is_tied(
                        spec_skip_blank_lines(input@),
                        #[trigger] tied_delims@[i2],
                    ));
                assert(0 <= bad < tied_delims@.len());
                assert(tied_delims@[bad] == inc_d@[tied@[bad] as int]);
                assert(views_of_records(inc_norm@[tied@[bad] as int]@) != views_of_records(
                    inc_norm@[tied@[0] as int]@,
                ));
                assert(spec_cand_bs(t, inc_d@[tied@[bad] as int]) == inc_bs@[tied@[bad] as int]);
                assert(!spec_samples_equal(t, tied_delims@[bad], tied_delims@[0]));
                assert(!spec_samples_equal(
                    spec_skip_blank_lines(input@),
                    tied_delims@[bad as int],
                    tied_delims@[0],
                ));
                assert(exists|i2: int, j2: int|
                    0 <= i2 < tied_delims@.len() && 0 <= j2 < tied_delims@.len()
                        && !spec_samples_equal(
                        spec_skip_blank_lines(input@),
                        tied_delims@[i2],
                        tied_delims@[j2],
                    ));
                assert forall|i2: int, j2: int|
                    #![trigger tied_delims@[i2], tied_delims@[j2]]
                    0 <= i2 < j2 < tied_delims@.len() implies spec_cand_rank(tied_delims@[i2])
                    < spec_cand_rank(tied_delims@[j2]) by {
                    assert(tied_delims@[i2] == inc_d@[tied@[i2] as int]);
                    assert(tied_delims@[j2] == inc_d@[tied@[j2] as int]);
                    assert(tied@[i2] < tied@[j2]);
                }
                assert forall|d2: u8| spec_is_tied(t, d2) implies tied_delims@.contains(d2) by {
                    let w = choose|w: int|
                        0 <= w < inc_d@.len() && inc_d@[w] == d2 && inc_score@[w]
                            == inc_score@[best as int];
                    assert(tied@.contains(w as usize));
                    let ww = choose|ww: int| 0 <= ww < tied@.len() && tied@[ww] == w as usize;
                    assert(tied_delims@[ww] == inc_d@[tied@[ww] as int]);
                    assert(tied_delims@[ww] == d2);
                }
                assert(spec_auto_err(input@, DialectError::Ambiguous { tied: tied_delims }));
            }
            return Err(DialectError::Ambiguous { tied: tied_delims });
        }
    }
    let d = inc_d[chosen_idx];
    let header = inc_header[chosen_idx];
    let bs = inc_bs[chosen_idx];
    let score = inc_score[chosen_idx];
    proof {
        assert(tied@.contains(chosen_idx));
        assert(chosen_idx == tied@[0]);
        assert(inc_score@[chosen_idx as int] == inc_score@[best as int]);
        assert(spec_is_tied(t, inc_d@[chosen_idx as int]));
        assert forall|d2: u8| spec_is_tied(t, d2) implies spec_cand_rank(
            inc_d@[chosen_idx as int],
        ) <= spec_cand_rank(d2) by {
            let w = choose|w: int|
                0 <= w < inc_d@.len() && inc_d@[w] == d2 && inc_score@[w]
                    == inc_score@[best as int];
            assert(tied@.contains(w as usize));
            let ww = choose|ww: int| 0 <= ww < tied@.len() && tied@[ww] == w as usize;
            if ww > 0 {
                assert(tied@[0] < tied@[ww]);
            }
            if (chosen_idx as int) < w {
                assert(spec_cand_rank(inc_d@[chosen_idx as int]) < spec_cand_rank(inc_d@[w]));
            }
        }
    }
    if header == 1 {
        return Err(DialectError::SingleColumn { delimiter: d });
    }
    Ok(
        Dialect {
            delimiter: d,
            quote: 0x22,
            escape: if bs {
                EscapeMode::Backslash
            } else {
                EscapeMode::Rfc
            },
            header_fields: header,
            score: DialectScore {
                records_parsed: score.0,
                mode_count: score.1,
                mode_fields: score.2,
            },
        },
    )
}

} // verus!