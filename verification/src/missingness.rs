//! The missingness refusal: a missing value facing a numeric one is
//! reported against the side that still holds a value.

use vstd::prelude::*;

use crate::columns::{MissingnessError, Side};
use crate::details::{FileSide, RefusalDetail, RefusalKind, RerunPaths, spec_default_next};

verus! {

/// Convert a missingness error into a refusal detail with the default
/// next-step guidance; the named file is the side holding the value.
pub fn build_missingness_refusal(error: MissingnessError, paths: &RerunPaths) -> (r: RefusalDetail)
    ensures
        r.kind matches RefusalKind::Missingness { file, record, column, value, key_value } && {
            &&& file == (if error.missing_side == Side::Old {
                FileSide::New
            } else {
                FileSide::Old
            })
            &&& record == (if error.missing_side == Side::Old {
                error.row.new_record
            } else {
                error.row.old_record
            })
            &&& column@ == error.column@
            &&& value@ == error.present_value@
            &&& key_value is None
        },
        r.next@ == spec_default_next(r.kind, *paths),
{
    let (file, record) = match error.missing_side {
        Side::Old => (FileSide::New, error.row.new_record),
        Side::New => (FileSide::Old, error.row.old_record),
    };
    let kind = RefusalKind::Missingness {
        file,
        record,
        column: error.column,
        value: error.present_value,
        key_value: None,
    };
    RefusalDetail::with_default_next(kind, paths)
}

} // verus!
