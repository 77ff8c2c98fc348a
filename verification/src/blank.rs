//! Blank lines, blank records, and line splitting.

use vstd::prelude::*;

use crate::bytes::views_of;
use crate::trim::{is_ascii_blank_slice, spec_is_blank_seq};

verus! {

/// A single trailing carriage return removed, if present.
pub open spec fn spec_strip_cr(s: Seq<u8>) -> Seq<u8> {
    if s.len() > 0 && s[s.len() - 1] == 0x0D {
        s.drop_last()
    } else {
        s
    }
}

/// A line is blank when, after dropping a trailing CR, every byte is an
/// ASCII space or tab.
pub open spec fn spec_is_blank_line(s: Seq<u8>) -> bool {
    spec_is_blank_seq(spec_strip_cr(s))
}

/// A record is blank when every field ASCII-trims to nothing.
pub open spec fn spec_is_blank_record(fields: Seq<Seq<u8>>) -> bool {
    forall|i: int| 0 <= i < fields.len() ==> spec_is_blank_seq(#[trigger] fields[i])
}

/// Index of the first line-feed byte, or -1 when there is none.
pub open spec fn spec_nl_index(s: Seq<u8>) -> int {
    crate::bytes::first_index_where(s, |b: u8| b == 0x0A)
}

/// The lines of a buffer, split on `\n`; a trailing `\n` yields a final
/// empty line, and an empty buffer yields one empty line.
pub open spec fn spec_split_lines(s: Seq<u8>) -> Seq<Seq<u8>>
    decreases s.len(),
{
    let i = spec_nl_index(s);
    if i < 0 || i >= s.len() {
        seq![s]
    } else {
        seq![s.take(i)] + spec_split_lines(s.skip(i + 1))
    }
}

/// Strip a single trailing carriage return (`\r`) if present.
pub fn strip_trailing_cr(line: &[u8]) -> (r: &[u8])
    ensures
        r@ == spec_strip_cr(line@),
{
    let n = line.len();
    if n > 0 && line[n - 1] == 0x0D {
        let r = vstd::slice::slice_subrange(line, 0, n - 1);
        proof {
            assert(line@.subrange(0, n - 1) =~= line@.drop_last());
        }
        r
    } else {
        line
    }
}

/// Returns true if the line is blank after ASCII-trim, ignoring a single
/// trailing carriage return.
pub fn is_blank_line(line: &[u8]) -> (r: bool)
    ensures
        r == spec_is_blank_line(line@),
{
    is_ascii_blank_slice(strip_trailing_cr(line))
}

/// Returns true if every field in the record is empty after ASCII-trim.
pub fn is_blank_record(fields: &Vec<Vec<u8>>) -> (r: bool)
    ensures
        r == spec_is_blank_record(views_of(fields@)),
{
    let n = fields.len();
    let mut i: usize = 0;
    while i < n
        invariant
            0 <= i <= n,
            n == fields@.len(),
            forall|j: int| 0 <= j < i ==> spec_is_blank_seq(#[trigger] views_of(fields@)[j]),
        decreases n - i,
    {
        if !is_ascii_blank_slice(fields[i].as_slice()) {
            proof {
                assert(views_of(fields@)[i as int] == fields@[i as int]@);
            }
            return false;
        }
        i = i + 1;
    }
    true
}

/// Find the first `\n` at or after `from`.
pub fn find_nl_from(s: &[u8], from: usize) -> (r: Option<usize>)
    requires
        from <= s@.len(),
    ensures
        match r {
            Some(i) => from <= i && spec_nl_index(s@.skip(from as int)) == i - from,
            None => spec_nl_index(s@.skip(from as int)) < 0,
        },
{
    let n = s.len();
    let mut i: usize = from;
    while i < n
        invariant
            from <= i <= n,
            n == s@.len(),
            forall|j: int| from <= j < i ==> s@[j] != 0x0A,
        decreases n - i,
    {
        if s[i] == 0x0A {
            proof {
                let rest = s@.skip(from as int);
                assert(forall|k: int| 0 <= k < i - from ==> rest[k] == s@[from + k]);
                assert(rest[i - from] == s@[i as int]);
                crate::bytes::lemma_first_index_at(rest, |b: u8| b == 0x0A, i - from);
            }
            return Some(i);
        }
        i = i + 1;
    }
    proof {
        let rest = s@.skip(from as int);
        assert(forall|k: int| 0 <= k < rest.len() ==> rest[k] == s@[from + k]);
        crate::bytes::lemma_first_index_at(rest, |b: u8| b == 0x0A, rest.len() as int);
    }
    None
}

/// Split a buffer into lines on `\n` (the `\n` bytes are not kept).
pub fn split_lines(input: &[u8]) -> (r: Vec<Vec<u8>>)
    ensures
        views_of(r@) == spec_split_lines(input@),
        r@.len() >= 1,
{
    let n = input.len();
    let mut out: Vec<Vec<u8>> = Vec::new();
    let mut pos: usize = 0;
    proof {
        assert(input@.skip(0) =~= input@);
    }
    loop
        invariant_except_break
            0 <= pos <= n,
            n == input@.len(),
            spec_split_lines(input@) == views_of(out@) + spec_split_lines(input@.skip(pos as int)),
        ensures
            views_of(out@) == spec_split_lines(input@),
            out@.len() >= 1,
        decreases n - pos,
    {
        let ghost rest = input@.skip(pos as int);
        match find_nl_from(input, pos) {
            Some(j) => {
                proof {
                    crate::bytes::lemma_first_index_props(rest, |b: u8| b == 0x0A);
                }
                let line = bytes_of_range(input, pos, j);
                proof {
                    assert(rest.take(j - pos) =~= input@.subrange(pos as int, j as int));
                    assert(rest.skip(j - pos + 1) =~= input@.skip(j + 1));
                    crate::bytes::lemma_views_push(out@, line);
                    assert((views_of(out@) + seq![line@]) + spec_split_lines(input@.skip(j + 1))
                        =~= views_of(out@) + spec_split_lines(rest));
                }
                out.push(line);
                pos = j + 1;
            },
            None => {
                let line = bytes_of_range(input, pos, n);
                proof {
                    assert(rest =~= input@.subrange(pos as int, n as int));
                    crate::bytes::lemma_views_push(out@, line);
                    assert((views_of(out@) + seq![line@]) =~= views_of(out@) + spec_split_lines(
                        rest,
                    ));
                }
                out.push(line);
                break ;
            },
        }
    }
    out
}

/// Copy `input[lo..hi]` into a fresh vector.
pub fn bytes_of_range(input: &[u8], lo: usize, hi: usize) -> (r: Vec<u8>)
    requires
        0 <= lo <= hi <= input@.len(),
    ensures
        r@ == input@.subrange(lo as int, hi as int),
{
    let s = vstd::slice::slice_subrange(input, lo, hi);
    crate::bytes::to_vec_bytes(s)
}

} // verus!
