//! The no-numeric-columns refusal and its deterministic samples.

use vstd::prelude::*;

use crate::bytes::{lex_le, views_of};
use crate::details::{RefusalDetail, RefusalKind, RerunPaths, spec_default_next};

verus! {

/// At most this many sample column names are reported.
pub const MAX_NO_NUMERIC_SAMPLES: usize = 10;

/// Raised when no common column is numeric on both sides.
#[derive(Debug, Clone)]
pub struct NoNumericError {
    pub columns_common: usize,
    pub sample_columns: Vec<Vec<u8>>,
}

/// Deterministically sample column names: sorted by raw bytes, truncated.
pub fn sample_column_names(columns: Vec<Vec<u8>>, limit: usize) -> (r: Vec<Vec<u8>>)
    ensures
        r@.len() == (if (limit as int) < columns@.len() {
            limit as int
        } else {
            columns@.len() as int
        }),
        forall|i: int, j: int|
            0 <= i < j < r@.len() ==> lex_le(
                #[trigger] views_of(r@)[i],
                #[trigger] views_of(r@)[j],
            ),
        forall|i: int|
            0 <= i < r@.len() ==> views_of(columns@).contains(#[trigger] views_of(r@)[i]),
        crate::order::spec_sorted_prefix(views_of(columns@), limit as int, views_of(r@)),
{
    crate::order::sort_and_truncate_bytes(columns, limit)
}

/// Check that at least one numeric column exists.
pub fn ensure_numeric_columns(numeric_columns: usize, common_columns: Vec<Vec<u8>>) -> (r: Result<
    (),
    NoNumericError,
>)
    ensures
        numeric_columns > 0 <==> r is Ok,
        r matches Err(e) ==> e.columns_common == common_columns@.len() && e.sample_columns@.len()
            <= MAX_NO_NUMERIC_SAMPLES && crate::order::spec_sorted_prefix(
            views_of(common_columns@),
            MAX_NO_NUMERIC_SAMPLES as int,
            views_of(e.sample_columns@),
        ),
{
    if numeric_columns > 0 {
        return Ok(());
    }
    let columns_common = common_columns.len();
    let sample_columns = sample_column_names(common_columns, MAX_NO_NUMERIC_SAMPLES);
    Err(NoNumericError { columns_common, sample_columns })
}

/// Build the refusal detail for the no-numeric case.
pub fn build_no_numeric_refusal(paths: &RerunPaths) -> (r: RefusalDetail)
    ensures
        r.kind == RefusalKind::NoNumeric,
        r.next@ == spec_default_next(RefusalKind::NoNumeric, *paths),
{
    RefusalDetail::with_default_next(RefusalKind::NoNumeric, paths)
}

} // verus!
