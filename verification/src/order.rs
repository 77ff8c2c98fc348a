//! Deterministic cell identity and ordering: row indices sort before
//! keys, keys by raw bytes, cells by row then column; ties between equal
//! contributions fall back to this order.

use vstd::prelude::*;

use crate::bytes::{lex_le, lex_lt, views_of};

verus! {

/// Row identifier used for deterministic ordering.
#[derive(Debug, Clone, PartialEq, Eq)]
pub enum RowId {
    RowIndex(usize),
    Key(Vec<u8>),
}

impl RowId {
    /// A 1-based row index identity.
    pub fn row_index(index: usize) -> (r: RowId)
        ensures
            r == RowId::RowIndex(index),
    {
        RowId::RowIndex(index)
    }

    /// A raw key bytes identity.
    pub fn key(bytes: Vec<u8>) -> (r: RowId)
        ensures
            r == RowId::Key(bytes),
    {
        RowId::Key(bytes)
    }
}

/// Strict order on row identifiers: indices numerically, keys by bytes,
/// and every index before every key.
pub open spec fn rid_lt(a: RowId, b: RowId) -> bool {
    match (a, b) {
        (RowId::RowIndex(x), RowId::RowIndex(y)) => x < y,
        (RowId::Key(x), RowId::Key(y)) => lex_lt(x@, y@),
        (RowId::RowIndex(_), RowId::Key(_)) => true,
        (RowId::Key(_), RowId::RowIndex(_)) => false,
    }
}

/// Equality of row identifiers by value.
pub open spec fn rid_eq(a: RowId, b: RowId) -> bool {
    match (a, b) {
        (RowId::RowIndex(x), RowId::RowIndex(y)) => x == y,
        (RowId::Key(x), RowId::Key(y)) => x@ == y@,
        _ => false,
    }
}

/// Deterministic identifier for a single numeric cell.
#[derive(Debug, Clone, PartialEq, Eq)]
pub struct CellId {
    pub row_id: RowId,
    pub column: Vec<u8>,
}

impl CellId {
    /// Pair a row identity with a column name.
    pub fn new(row_id: RowId, column: Vec<u8>) -> (r: CellId)
        ensures
            r.row_id == row_id && r.column == column,
    {
        CellId { row_id, column }
    }
}

/// Strict order on cells: row identity first, then column bytes.
pub open spec fn cell_lt(a: CellId, b: CellId) -> bool {
    rid_lt(a.row_id, b.row_id) || (rid_eq(a.row_id, b.row_id) && lex_lt(a.column@, b.column@))
}

/// Non-strict order on cells.
pub open spec fn cell_le(a: CellId, b: CellId) -> bool {
    cell_lt(a, b) || (rid_eq(a.row_id, b.row_id) && a.column@ == b.column@)
}

/// Exactly one of `a < b`, equal views, `b < a` holds for cells.
pub proof fn lemma_cell_trichotomy(a: CellId, b: CellId)
    ensures
        cell_lt(a, b) || (rid_eq(a.row_id, b.row_id) && a.column@ == b.column@) || cell_lt(b, a),
        cell_lt(a, b) ==> !cell_lt(b, a),
{
    match (a.row_id, b.row_id) {
        (RowId::RowIndex(_), RowId::RowIndex(_)) => {
            crate::bytes::lemma_lex_trichotomy(a.column@, b.column@);
        },
        (RowId::Key(x), RowId::Key(y)) => {
            crate::bytes::lemma_lex_trichotomy(x@, y@);
            crate::bytes::lemma_lex_trichotomy(a.column@, b.column@);
        },
        _ => {},
    }
}

/// Cell order is transitive.
pub proof fn lemma_cell_le_trans(a: CellId, b: CellId, c: CellId)
    requires
        cell_le(a, b),
        cell_le(b, c),
    ensures
        cell_le(a, c),
{
    match (a.row_id, b.row_id, c.row_id) {
        (RowId::Key(x), RowId::Key(y), RowId::Key(z)) => {
            if lex_lt(x@, y@) && lex_lt(y@, z@) {
                crate::bytes::lemma_lex_transitive(x@, y@, z@);
            }
            if lex_lt(a.column@, b.column@) && lex_lt(b.column@, c.column@) {
                crate::bytes::lemma_lex_transitive(a.column@, b.column@, c.column@);
            }
        },
        (RowId::RowIndex(_), RowId::RowIndex(_), RowId::RowIndex(_)) => {
            if lex_lt(a.column@, b.column@) && lex_lt(b.column@, c.column@) {
                crate::bytes::lemma_lex_transitive(a.column@, b.column@, c.column@);
            }
        },
        _ => {},
    }
}

/// Compare two row identifiers.
pub fn rid_lt_exec(a: &RowId, b: &RowId) -> (r: bool)
    ensures
        r == rid_lt(*a, *b),
{
    match (a, b) {
        (RowId::RowIndex(x), RowId::RowIndex(y)) => *x < *y,
        (RowId::Key(x), RowId::Key(y)) => crate::bytes::bytes_lt(x.as_slice(), y.as_slice()),
        (RowId::RowIndex(_), RowId::Key(_)) => true,
        (RowId::Key(_), RowId::RowIndex(_)) => false,
    }
}

/// Compare two row identifiers for equal identity.
pub fn rid_eq_exec(a: &RowId, b: &RowId) -> (r: bool)
    ensures
        r == rid_eq(*a, *b),
{
    match (a, b) {
        (RowId::RowIndex(x), RowId::RowIndex(y)) => *x == *y,
        (RowId::Key(x), RowId::Key(y)) => crate::bytes::bytes_eq(x.as_slice(), y.as_slice()),
        _ => false,
    }
}

/// Compare two cells.
pub fn cell_lt_exec(a: &CellId, b: &CellId) -> (r: bool)
    ensures
        r == cell_lt(*a, *b),
{
    if rid_lt_exec(&a.row_id, &b.row_id) {
        return true;
    }
    if rid_eq_exec(&a.row_id, &b.row_id) {
        return crate::bytes::bytes_lt(a.column.as_slice(), b.column.as_slice());
    }
    false
}

/// Monotonic tie-breaker for stable top-K selection.
#[derive(Debug)]
pub struct TieBreaker {
    next: u64,
}

impl TieBreaker {
    /// The counter's next value.
    pub closed spec fn spec_next(&self) -> u64 {
        self.next
    }

    /// A fresh counter starting at zero.
    pub fn new() -> (r: TieBreaker)
        ensures
            r.spec_next() == 0,
    {
        TieBreaker { next: 0 }
    }

    /// Hand out the current value and advance (wrapping).
    pub fn next_value(&mut self) -> (r: u64)
        ensures
            r == old(self).spec_next(),
            final(self).spec_next() == (if old(self).spec_next() == u64::MAX {
                0u64
            } else {
                (old(self).spec_next() + 1) as u64
            }),
    {
        let current = self.next;
        self.next = if self.next == u64::MAX {
            0
        } else {
            self.next + 1
        };
        current
    }
}

/// Sort a list of byte strings ascending by raw bytes.
pub fn sort_bytes(items: Vec<Vec<u8>>) -> (r: Vec<Vec<u8>>)
    ensures
        views_of(r@).to_multiset() == views_of(items@).to_multiset(),
        r@.len() == items@.len(),
        forall|i: int, j: int|
            0 <= i < j < r@.len() ==> lex_le(
                #[trigger] views_of(r@)[i],
                #[trigger] views_of(r@)[j],
            ),
{
    crate::bytes::sort_byte_vecs(items)
}

/// Sort byte strings ascending and keep at most `limit`.
/// `r` holds the `min(limit, |xs|)` lexicographically smallest elements of
/// `xs`: it is the prefix of some ascending arrangement of all of `xs`.
pub open spec fn spec_sorted_prefix(xs: Seq<Seq<u8>>, limit: int, r: Seq<Seq<u8>>) -> bool {
    exists|s: Seq<Seq<u8>>|
        #![trigger s.to_multiset()]
        s.to_multiset() == xs.to_multiset() && (forall|a: int, b: int|
            0 <= a < b < s.len() ==> lex_le(s[a], s[b])) && r == s.take(
            if limit < xs.len() {
                limit
            } else {
                xs.len() as int
            },
        )
}

pub fn sort_and_truncate_bytes(items: Vec<Vec<u8>>, limit: usize) -> (r: Vec<Vec<u8>>)
    ensures
        r@.len() == (if (limit as int) < items@.len() {
            limit as int
        } else {
            items@.len() as int
        }),
        forall|i: int, j: int|
            0 <= i < j < r@.len() ==> lex_le(
                #[trigger] views_of(r@)[i],
                #[trigger] views_of(r@)[j],
            ),
        forall|i: int| 0 <= i < r@.len() ==> views_of(items@).contains(#[trigger] views_of(r@)[i]),
        spec_sorted_prefix(views_of(items@), limit as int, views_of(r@)),
{
    let ghost orig = views_of(items@);
    let sorted = crate::bytes::sort_byte_vecs(items);
    let n = sorted.len();
    let keep = if n < limit {
        n
    } else {
        limit
    };
    let mut out: Vec<Vec<u8>> = Vec::new();
    let mut i: usize = 0;
    while i < keep
        invariant
            0 <= i <= keep <= n,
            n == sorted@.len(),
            orig.to_multiset() == views_of(sorted@).to_multiset(),
            forall|a: int, b: int|
                0 <= a < b < sorted@.len() ==> lex_le(
                    #[trigger] views_of(sorted@)[a],
                    #[trigger] views_of(sorted@)[b],
                ),
            out@.len() == i,
            forall|j: int| 0 <= j < i ==> #[trigger] out@[j]@ == sorted@[j]@,
        decreases keep - i,
    {
        out.push(crate::bytes::to_vec_bytes(sorted[i].as_slice()));
        i = i + 1;
    }
    proof {
        broadcast use vstd::seq_lib::group_to_multiset_ensures;

        assert forall|a: int, b: int| 0 <= a < b < out@.len() implies lex_le(
            #[trigger] views_of(out@)[a],
            #[trigger] views_of(out@)[b],
        ) by {
            assert(views_of(out@)[a] == out@[a]@ && views_of(out@)[b] == out@[b]@);
            assert(views_of(sorted@)[a] == sorted@[a]@ && views_of(sorted@)[b] == sorted@[b]@);
        }
        assert forall|j: int| 0 <= j < out@.len() implies orig.contains(
            #[trigger] views_of(out@)[j],
        ) by {
            assert(views_of(out@)[j] == out@[j]@);
            assert(views_of(sorted@)[j] == sorted@[j]@);
            assert(views_of(sorted@).contains(sorted@[j]@));
            assert(orig.to_multiset().count(sorted@[j]@) > 0);
        }
        let svs = views_of(sorted@);
        assert(views_of(out@) =~= svs.take(keep as int)) by {
            assert(views_of(out@).len() == keep);
            assert forall|j: int| 0 <= j < keep implies views_of(out@)[j] == svs.take(
                keep as int,
            )[j] by {
                assert(views_of(out@)[j] == out@[j]@);
                assert(svs[j] == sorted@[j]@);
            }
        }
        assert(svs.to_multiset() == orig.to_multiset() && (forall|a: int, b: int|
            0 <= a < b < svs.len() ==> lex_le(svs[a], svs[b])) && views_of(out@) == svs.take(
            if (limit as int) < orig.len() {
                limit as int
            } else {
                orig.len() as int
            },
        ));
    }
    out
}

} // verus!
