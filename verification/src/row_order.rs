//! Row-order alignment: rows paired by 1-based index, with a row-count
//! check.

use vstd::prelude::*;

verus! {

/// One aligned pair of rows.
#[derive(Debug, Clone, Copy, PartialEq, Eq)]
pub struct RowPair<T> {
    pub row_id: usize,
    pub old: T,
    pub new: T,
}

/// Reported when the two sides hold different numbers of data rows.
#[derive(Debug, Clone, Copy, PartialEq, Eq, Structural)]
pub struct RowOrderError {
    pub rows_old: usize,
    pub rows_new: usize,
}

/// Pairs rows of the two sides front to back, assigning 1-based row ids;
/// when one side runs out first, reports both total counts once.
pub struct RowOrderAligner<T> {
    old_rows: Vec<T>,
    new_rows: Vec<T>,
    row_id: usize,
    total_old: usize,
    total_new: usize,
    done: bool,
}

impl<T> RowOrderAligner<T> {
    /// The assigned ids never outrun the old side's total row count.
    pub closed spec fn wf(&self) -> bool {
        self.row_id + self.old_rows@.len() <= self.total_old
    }

    /// The rows not yet handed out on the old side.
    pub closed spec fn old_view(&self) -> Seq<T> {
        self.old_rows@
    }

    /// The rows not yet handed out on the new side.
    pub closed spec fn new_view(&self) -> Seq<T> {
        self.new_rows@
    }

    /// The next 1-based row id to assign.
    pub closed spec fn next_id(&self) -> int {
        self.row_id + 1
    }

    /// Whether the aligner has finished (by exhaustion or error).
    pub closed spec fn is_done(&self) -> bool {
        self.done
    }

    /// The total row counts the aligner was built with.
    pub closed spec fn totals(&self) -> (int, int) {
        (self.total_old as int, self.total_new as int)
    }

    /// Build an aligner over the two row lists.
    pub fn new(old_rows: Vec<T>, new_rows: Vec<T>) -> (r: RowOrderAligner<T>)
        ensures
            r.old_view() == old_rows@,
            r.new_view() == new_rows@,
            r.next_id() == 1,
            !r.is_done(),
            r.totals() == (old_rows@.len() as int, new_rows@.len() as int),
            r.wf(),
    {
        let total_old = old_rows.len();
        let total_new = new_rows.len();
        RowOrderAligner { old_rows, new_rows, row_id: 0, total_old, total_new, done: false }
    }

    /// The next aligned pair, a row-count error, or the end.
    pub fn next(&mut self) -> (r: Option<Result<RowPair<T>, RowOrderError>>)
        requires
            old(self).wf(),
        ensures
            final(self).wf(),
            ({
                let pre = *old(self);
                let post = *final(self);
                &&& (pre.is_done() ==> r is None && post.is_done())
                &&& (!pre.is_done() && pre.old_view().len() > 0 && pre.new_view().len() > 0 ==> {
                    &&& r matches Some(p) && p matches Ok(pair) && pair.row_id as int
                        == pre.next_id() && pair.old == pre.old_view()[0] && pair.new
                        == pre.new_view()[0]
                    &&& post.old_view() == pre.old_view().drop_first()
                    &&& post.new_view() == pre.new_view().drop_first()
                    &&& post.next_id() == pre.next_id() + 1
                    &&& !post.is_done()
                })
                &&& (!pre.is_done() && pre.old_view().len() == 0 && pre.new_view().len() == 0
                    ==> r is None && post.is_done())
                &&& (!pre.is_done() && (pre.old_view().len() == 0) != (pre.new_view().len() == 0)
                    ==> {
                    &&& r matches Some(p) && p matches Err(e) && e.rows_old as int
                        == pre.totals().0 && e.rows_new as int == pre.totals().1
                    &&& post.is_done()
                })
                &&& post.totals() == pre.totals()
            }),
    {
        if self.done {
            return None;
        }
        if self.old_rows.len() > 0 && self.new_rows.len() > 0 {
            let old_row = self.old_rows.remove(0);
            let new_row = self.new_rows.remove(0);
            proof {
                assert(old(self).old_view().remove(0) =~= old(self).old_view().drop_first());
                assert(old(self).new_view().remove(0) =~= old(self).new_view().drop_first());
            }
            self.row_id = self.row_id + 1;
            return Some(Ok(RowPair { row_id: self.row_id, old: old_row, new: new_row }));
        }
        self.done = true;
        if self.old_rows.len() == 0 && self.new_rows.len() == 0 {
            return None;
        }
        Some(Err(RowOrderError { rows_old: self.total_old, rows_new: self.total_new }))
    }
}

/// Build a row-order aligner over the two row lists.
pub fn row_order_aligner<T>(old_rows: Vec<T>, new_rows: Vec<T>) -> (r: RowOrderAligner<T>)
    ensures
        r.old_view() == old_rows@,
        r.new_view() == new_rows@,
        r.next_id() == 1,
        !r.is_done(),
        r.totals() == (old_rows@.len() as int, new_rows@.len() as int),
        r.wf(),
{
    RowOrderAligner::new(old_rows, new_rows)
}

} // verus!
