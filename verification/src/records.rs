//! Record width normalization.
//!
//! A data row shorter than the header is read as if padded with empty
//! fields; a longer row is acceptable only when every extra field is blank.

use vstd::prelude::*;

use crate::bytes::views_of;
use crate::trim::spec_is_blank_seq;

verus! {

/// Error returned when a record has non-blank extra fields beyond the
/// header width.
#[derive(Debug, Clone, Copy, PartialEq, Eq, Structural)]
pub struct RecordWidthError {
    pub record_number: u64,
    pub first_extra_index: usize,
}

/// A record view normalized to the header width: missing trailing fields
/// read as empty.
#[derive(Debug, Clone)]
pub struct NormalizedRecord {
    fields: Vec<Vec<u8>>,
    header_len: usize,
}

/// What `field` returns at each index of a normalized record.
pub open spec fn spec_norm_field(fields: Seq<Seq<u8>>, header_len: nat, index: int) -> Seq<u8> {
    if 0 <= index < header_len && index < fields.len() {
        fields[index]
    } else {
        Seq::<u8>::empty()
    }
}

impl NormalizedRecord {
    /// The underlying fields, as given.
    pub closed spec fn fields_view(&self) -> Seq<Seq<u8>> {
        views_of(self.fields@)
    }

    /// The normalized width.
    pub closed spec fn spec_len(&self) -> nat {
        self.header_len as nat
    }

    /// Returns the field at `index`, or empty bytes if missing.
    pub fn field(&self, index: usize) -> (r: Vec<u8>)
        ensures
            r@ == spec_norm_field(self.fields_view(), self.spec_len(), index as int),
    {
        if index >= self.header_len || index >= self.fields.len() {
            Vec::new()
        } else {
            proof {
                assert(views_of(self.fields@)[index as int] == self.fields@[index as int]@);
            }
            crate::bytes::to_vec_bytes(self.fields[index].as_slice())
        }
    }

    /// Returns the normalized width (the header length).
    pub fn len(&self) -> (r: usize)
        ensures
            r == self.spec_len(),
    {
        self.header_len
    }

    /// Returns true if the normalized width is zero.
    pub fn is_empty(&self) -> (r: bool)
        ensures
            r == (self.spec_len() == 0),
    {
        self.header_len == 0
    }
}

/// Normalize a record to the header width; extra trailing fields must all
/// be blank, and the first non-blank one is reported.
pub fn normalize_record(record: Vec<Vec<u8>>, header_len: usize, record_number: u64) -> (r: Result<
    NormalizedRecord,
    RecordWidthError,
>)
    ensures
        ({
            let fs = views_of(record@);
            match r {
                Ok(nr) => {
                    &&& nr.fields_view() == fs
                    &&& nr.spec_len() == header_len
                    &&& forall|i: int|
                        header_len <= i < fs.len() ==> spec_is_blank_seq(#[trigger] fs[i])
                },
                Err(e) => {
                    &&& e.record_number == record_number
                    &&& header_len <= e.first_extra_index < fs.len()
                    &&& !spec_is_blank_seq(fs[e.first_extra_index as int])
                    &&& forall|i: int|
                        header_len <= i < e.first_extra_index ==> spec_is_blank_seq(
                            #[trigger] fs[i],
                        )
                },
            }
        }),
{
    let n = record.len();
    let mut i: usize = header_len;
    while i < n
        invariant
            header_len <= i,
            i <= n || i == header_len,
            n == record@.len(),
            forall|j: int|
                header_len <= j < i && j < n ==> spec_is_blank_seq(
                    #[trigger] views_of(record@)[j],
                ),
        decreases n - i,
    {
        proof {
            assert(views_of(record@)[i as int] == record@[i as int]@);
        }
        if !crate::trim::is_ascii_blank_slice(record[i].as_slice()) {
            return Err(RecordWidthError { record_number, first_extra_index: i });
        }
        i = i + 1;
    }
    Ok(NormalizedRecord { fields: record, header_len })
}

} // verus!
