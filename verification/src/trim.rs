//! ASCII trimming: the only whitespace rule in rvl.
//!
//! Only the space (0x20) and horizontal tab (0x09) bytes are ever stripped,
//! and only from the ends of a byte slice. No Unicode whitespace is touched.

use vstd::prelude::*;

verus! {

/// A byte counts as blank when it is an ASCII space or tab.
pub open spec fn spec_is_ascii_blank(b: u8) -> bool {
    b == 0x20 || b == 0x09
}

/// The sequence with its leading blank bytes removed.
pub open spec fn trim_start_of(s: Seq<u8>) -> Seq<u8>
    decreases s.len(),
{
    if s.len() > 0 && spec_is_ascii_blank(s[0]) {
        trim_start_of(s.drop_first())
    } else {
        s
    }
}

/// The sequence with its trailing blank bytes removed.
pub open spec fn trim_end_of(s: Seq<u8>) -> Seq<u8>
    decreases s.len(),
{
    if s.len() > 0 && spec_is_ascii_blank(s[s.len() - 1]) {
        trim_end_of(s.drop_last())
    } else {
        s
    }
}

/// ASCII-trim: blanks stripped from both ends.
pub open spec fn trim_of(s: Seq<u8>) -> Seq<u8> {
    trim_end_of(trim_start_of(s))
}

/// A sequence is blank when every byte in it is blank.
pub open spec fn spec_is_blank_seq(s: Seq<u8>) -> bool {
    forall|i: int| 0 <= i < s.len() ==> spec_is_ascii_blank(s[i])
}

proof fn lemma_trim_start_skip(s: Seq<u8>, i: int)
    requires
        0 <= i <= s.len(),
        forall|j: int| 0 <= j < i ==> spec_is_ascii_blank(s[j]),
        i == s.len() || !spec_is_ascii_blank(s[i]),
    ensures
        trim_start_of(s) == s.skip(i),
    decreases i,
{
    if i == 0 {
        assert(s.skip(0) =~= s);
    } else {
        assert(spec_is_ascii_blank(s[0]));
        let t = s.drop_first();
        assert(forall|j: int| 0 <= j < i - 1 ==> spec_is_ascii_blank(t[j]));
        lemma_trim_start_skip(t, i - 1);
        assert(t.skip(i - 1) =~= s.skip(i));
    }
}

proof fn lemma_trim_end_take(s: Seq<u8>, i: int)
    requires
        0 <= i <= s.len(),
        forall|j: int| i <= j < s.len() ==> spec_is_ascii_blank(s[j]),
        i == 0 || !spec_is_ascii_blank(s[i - 1]),
    ensures
        trim_end_of(s) == s.take(i),
    decreases s.len() - i,
{
    if i == s.len() {
        assert(s.take(i) =~= s);
    } else {
        assert(spec_is_ascii_blank(s[s.len() - 1]));
        let t = s.drop_last();
        lemma_trim_end_take(t, i);
        assert(t.take(i) =~= s.take(i));
    }
}

/// The trimmed form of a sequence, located inside it: `trim_of(s)` is
/// `s.subrange(lo, hi)` for the first and last non-blank positions.
proof fn lemma_trim_of_subrange(s: Seq<u8>, lo: int, hi: int)
    requires
        0 <= lo <= hi <= s.len(),
        forall|j: int| 0 <= j < lo ==> spec_is_ascii_blank(s[j]),
        forall|j: int| hi <= j < s.len() ==> spec_is_ascii_blank(s[j]),
        lo == hi || (!spec_is_ascii_blank(s[lo]) && !spec_is_ascii_blank(s[hi - 1])),
    ensures
        trim_of(s) == s.subrange(lo, hi),
{
    if lo == hi {
        lemma_trim_start_skip(s, s.len() as int);
        assert(s.skip(s.len() as int) =~= Seq::<u8>::empty());
        assert(trim_end_of(Seq::<u8>::empty()) == Seq::<u8>::empty());
        assert(s.subrange(lo, hi) =~= Seq::<u8>::empty());
    } else {
        lemma_trim_start_skip(s, lo);
        let t = s.skip(lo);
        lemma_trim_end_take(t, hi - lo);
        assert(t.take(hi - lo) =~= s.subrange(lo, hi));
    }
}

/// Returns true if the byte is an ASCII space or tab.
pub fn is_ascii_blank(b: u8) -> (r: bool)
    ensures
        r == spec_is_ascii_blank(b),
{
    b == 0x20 || b == 0x09
}

/// ASCII-trim: strip ASCII spaces (0x20) and tabs (0x09) from both ends.
pub fn ascii_trim(input: &[u8]) -> (r: &[u8])
    ensures
        r@ == trim_of(input@),
{
    let len = input.len();
    let mut start: usize = 0;
    let mut end: usize = len;
    while start < end && is_ascii_blank(input[start])
        invariant
            0 <= start <= end <= input@.len(),
            end == input@.len(),
            forall|j: int| 0 <= j < start ==> spec_is_ascii_blank(input@[j]),
        decreases end - start,
    {
        start = start + 1;
    }
    while end > start && is_ascii_blank(input[end - 1])
        invariant
            0 <= start <= end <= input@.len(),
            forall|j: int| 0 <= j < start ==> spec_is_ascii_blank(input@[j]),
            forall|j: int| end <= j < input@.len() ==> spec_is_ascii_blank(input@[j]),
            start == end || !spec_is_ascii_blank(input@[start as int]),
        decreases end,
    {
        end = end - 1;
    }
    proof {
        lemma_trim_of_subrange(input@, start as int, end as int);
    }
    vstd::slice::slice_subrange(input, start, end)
}

/// Returns true if the slice is empty after ASCII-trimming.
pub fn is_ascii_blank_slice(input: &[u8]) -> (r: bool)
    ensures
        r == (trim_of(input@).len() == 0),
        r == spec_is_blank_seq(input@),
{
    proof {
        lemma_blank_iff_trim_empty(input@);
    }
    let trimmed = ascii_trim(input);
    trimmed.len() == 0
}

/// A sequence trims to nothing exactly when every byte in it is blank.
pub proof fn lemma_blank_iff_trim_empty(s: Seq<u8>)
    ensures
        (trim_of(s).len() == 0) == spec_is_blank_seq(s),
    decreases s.len(),
{
    if s.len() == 0 {
    } else if spec_is_ascii_blank(s[0]) {
        let t = s.drop_first();
        lemma_blank_iff_trim_empty(t);
        assert(trim_start_of(s) == trim_start_of(t));
        assert(spec_is_blank_seq(s) == spec_is_blank_seq(t)) by {
            if spec_is_blank_seq(t) {
                assert(forall|i: int| 1 <= i < s.len() ==> s[i] == t[i - 1]);
            }
        }
    } else {
        assert(trim_start_of(s) == s);
        assert(!spec_is_blank_seq(s));
        if trim_end_of(s).len() == 0 {
            lemma_trim_end_blank(s);
        }
    }
}

/// If trimming the end empties a sequence, every byte in it was blank.
proof fn lemma_trim_end_blank(s: Seq<u8>)
    requires
        trim_end_of(s).len() == 0,
    ensures
        spec_is_blank_seq(s),
    decreases s.len(),
{
    if s.len() > 0 {
        assert(spec_is_ascii_blank(s[s.len() - 1]));
        lemma_trim_end_blank(s.drop_last());
        assert(forall|i: int| 0 <= i < s.len() - 1 ==> s[i] == s.drop_last()[i]);
    }
}

/// A sequence whose two ends are non-blank trims to itself.
pub proof fn lemma_trim_of_non_blank_ends(s: Seq<u8>)
    requires
        s.len() > 0,
        !spec_is_ascii_blank(s[0]),
        !spec_is_ascii_blank(s[s.len() - 1]),
    ensures
        trim_of(s) == s,
{
    lemma_trim_of_subrange(s, 0, s.len() as int);
    assert(s.subrange(0, s.len() as int) =~= s);
}

/// Trimming is idempotent: a trimmed sequence trims to itself.
pub proof fn lemma_trim_idempotent(s: Seq<u8>)
    ensures
        trim_of(trim_of(s)) == trim_of(s),
{
    let t = trim_of(s);
    if t.len() == 0 {
        assert(t =~= Seq::<u8>::empty());
        lemma_trim_of_subrange(t, 0, 0);
        assert(t.subrange(0, 0) =~= t);
    } else {
        lemma_trim_ends_non_blank(s);
        lemma_trim_of_subrange(t, 0, t.len() as int);
        assert(t.subrange(0, t.len() as int) =~= t);
    }
}

/// A non-empty trimmed sequence neither starts nor ends with a blank byte.
pub proof fn lemma_trim_ends_non_blank(s: Seq<u8>)
    requires
        trim_of(s).len() > 0,
    ensures
        !spec_is_ascii_blank(trim_of(s)[0]),
        !spec_is_ascii_blank(trim_of(s)[trim_of(s).len() - 1]),
{
    lemma_trim_start_head(s);
    lemma_trim_end_last(trim_start_of(s));
    lemma_trim_end_head(trim_start_of(s));
}

proof fn lemma_trim_start_head(s: Seq<u8>)
    requires
        trim_start_of(s).len() > 0,
    ensures
        !spec_is_ascii_blank(trim_start_of(s)[0]),
    decreases s.len(),
{
    if s.len() > 0 && spec_is_ascii_blank(s[0]) {
        lemma_trim_start_head(s.drop_first());
    }
}

proof fn lemma_trim_end_last(s: Seq<u8>)
    requires
        trim_end_of(s).len() > 0,
    ensures
        !spec_is_ascii_blank(trim_end_of(s)[trim_end_of(s).len() - 1]),
    decreases s.len(),
{
    if s.len() > 0 && spec_is_ascii_blank(s[s.len() - 1]) {
        lemma_trim_end_last(s.drop_last());
    }
}

proof fn lemma_trim_end_head(s: Seq<u8>)
    requires
        trim_end_of(s).len() > 0,
        !spec_is_ascii_blank(s[0]),
    ensures
        !spec_is_ascii_blank(trim_end_of(s)[0]),
    decreases s.len(),
{
    if s.len() > 0 && spec_is_ascii_blank(s[s.len() - 1]) {
        lemma_trim_end_head(s.drop_last());
    }
}

} // verus!
