//! Header normalization and duplicate detection.
//!
//! Headers are ASCII-trimmed; empty names become `__rvl_col_<1-based>`;
//! normalized names must be unique byte-for-byte.

use vstd::prelude::*;

use crate::bytes::{dec_digits_of, views_of};
use crate::trim::trim_of;

verus! {

/// Duplicate header error (after normalization), with 1-based indices.
#[derive(Debug, Clone, PartialEq, Eq)]
pub struct DuplicateHeader {
    pub name: Vec<u8>,
    pub first_index: usize,
    pub second_index: usize,
}

/// The prefix given to empty header names.
pub open spec fn rvl_col_prefix() -> Seq<u8> {
    seq![0x5Fu8, 0x5F, 0x72, 0x76, 0x6C, 0x5F, 0x63, 0x6F, 0x6C, 0x5F]
}

/// The normalized name of one header: its trim, or `__rvl_col_<index>`.
pub open spec fn spec_header_name(h: Seq<u8>, index: nat) -> Seq<u8> {
    if trim_of(h).len() == 0 {
        rvl_col_prefix() + dec_digits_of(index)
    } else {
        trim_of(h)
    }
}

/// All normalized names, 1-based.
pub open spec fn spec_normalized_names(hs: Seq<Seq<u8>>) -> Seq<Seq<u8>> {
    Seq::new(hs.len(), |i: int| spec_header_name(hs[i], (i + 1) as nat))
}

/// No two names are equal.
pub open spec fn spec_names_unique(names: Seq<Seq<u8>>) -> bool {
    forall|i: int, j: int| 0 <= i < j < names.len() ==> names[i] != names[j]
}

/// Normalize a single header name (1-based index for empty names).
pub fn normalize_header_name(header: &[u8], index: usize) -> (r: Vec<u8>)
    ensures
        r@ == spec_header_name(header@, index as nat),
{
    let trimmed = crate::trim::ascii_trim(header);
    if trimmed.len() == 0 {
        let mut out: Vec<u8> = Vec::new();
        out.push(0x5F);
        out.push(0x5F);
        out.push(0x72);
        out.push(0x76);
        out.push(0x6C);
        out.push(0x5F);
        out.push(0x63);
        out.push(0x6F);
        out.push(0x6C);
        out.push(0x5F);
        proof {
            assert(out@ =~= rvl_col_prefix());
        }
        crate::bytes::push_dec_u64(&mut out, index as u64);
        out
    } else {
        crate::bytes::to_vec_bytes(trimmed)
    }
}

/// Normalize all headers; the first duplicate (by its second occurrence)
/// is an error carrying both 1-based indices.
pub fn normalize_headers(headers: &Vec<Vec<u8>>) -> (r: Result<Vec<Vec<u8>>, DuplicateHeader>)
    ensures
        ({
            let names = spec_normalized_names(views_of(headers@));
            match r {
                Ok(out) => views_of(out@) == names && spec_names_unique(names),
                Err(d) => {
                    &&& 1 <= d.first_index < d.second_index <= names.len()
                    &&& names[d.first_index - 1] == names[d.second_index - 1]
                    &&& d.name@ == names[d.second_index - 1]
                    &&& spec_names_unique(names.take(d.second_index - 1))
                    &&& forall|i: int|
                        0 <= i < d.first_index - 1 ==> #[trigger] names[i] != names[d.second_index
                            - 1]
                },
            }
        }),
{
    let ghost names = spec_normalized_names(views_of(headers@));
    let n = headers.len();
    let mut out: Vec<Vec<u8>> = Vec::new();
    let mut k: usize = 0;
    while k < n
        invariant
            0 <= k <= n,
            n == headers@.len(),
            names == spec_normalized_names(views_of(headers@)),
            names.len() == n,
            views_of(out@) =~= names.take(k as int),
            out@.len() == k,
            spec_names_unique(names.take(k as int)),
        decreases n - k,
    {
        proof {
            assert(views_of(headers@)[k as int] == headers@[k as int]@);
        }
        let name = normalize_header_name(headers[k].as_slice(), k + 1);
        // search earlier names for a duplicate
        let mut i: usize = 0;
        while i < k
            invariant
                0 <= i <= k < n,
                out@.len() == k,
                views_of(out@) =~= names.take(k as int),
                names.len() == n,
                names == spec_normalized_names(views_of(headers@)),
                spec_names_unique(names.take(k as int)),
                name@ == names[k as int],
                forall|j: int| 0 <= j < i ==> names[j] != name@,
            decreases k - i,
        {
            proof {
                assert(views_of(out@)[i as int] == out@[i as int]@);
            }
            if crate::bytes::bytes_eq(out[i].as_slice(), name.as_slice()) {
                return Err(
                    DuplicateHeader { name, first_index: i + 1, second_index: k + 1 },
                );
            }
            i = i + 1;
        }
        proof {
            crate::bytes::lemma_views_push(out@, name);
            assert(views_of(out@).push(name@) =~= names.take(k + 1));
        }
        out.push(name);
        k = k + 1;
    }
    proof {
        assert(names.take(n as int) =~= names);
    }
    Ok(out)
}

/// Normalizing a header twice gives the same name as normalizing it once.
pub proof fn lemma_header_name_idempotent(h: Seq<u8>, index: nat)
    ensures
        spec_header_name(spec_header_name(h, index), index) == spec_header_name(h, index),
{
    let name = spec_header_name(h, index);
    if trim_of(h).len() == 0 {
        crate::bytes::lemma_dec_digits_form(index);
        assert(name[0] == 0x5F);
        assert(name[name.len() - 1] != 0x20 && name[name.len() - 1] != 0x09);
        crate::trim::lemma_trim_of_non_blank_ends(name);
    } else {
        crate::trim::lemma_trim_idempotent(h);
    }
}

/// Normalizing a list of normalized headers changes nothing.
pub proof fn lemma_normalize_idempotent(hs: Seq<Seq<u8>>)
    ensures
        spec_normalized_names(spec_normalized_names(hs)) == spec_normalized_names(hs),
{
    let names = spec_normalized_names(hs);
    assert forall|i: int| 0 <= i < names.len() implies spec_header_name(
        names[i],
        (i + 1) as nat,
    ) == names[i] by {
        lemma_header_name_idempotent(hs[i], (i + 1) as nat);
    }
    assert(spec_normalized_names(names) =~= names);
}

} // verus!
