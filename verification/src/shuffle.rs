//! Shuffle detection: a reorder under a perfect key candidate must not be
//! misread as numeric drift in row-order mode.

use vstd::prelude::*;

use crate::bytes::views_of;
use crate::key_discovery::{
    col_values_exec, discover_key_candidates, spec_col_values, spec_header_index,
    spec_is_candidate, CandidateKind,
};

verus! {

/// Whether some perfect key candidate's trimmed value sequence differs
/// between the two sides.
pub open spec fn spec_reordered(
    oh: Seq<Seq<u8>>,
    nh: Seq<Seq<u8>>,
    orows: Seq<Seq<Seq<u8>>>,
    nrows: Seq<Seq<Seq<u8>>>,
) -> bool {
    exists|oi: int|
        0 <= oi < oh.len() && #[trigger] spec_is_candidate(oh, nh, orows, nrows, oi, true)
            && spec_col_values(orows, oi) != spec_col_values(
            nrows,
            spec_header_index(nh, oh[oi]),
        )
}

/// The outcome of shuffle detection.
#[derive(Debug, Clone)]
pub struct ShuffleDetection {
    pub reordered: bool,
    pub suggested_keys: Vec<Vec<u8>>,
}

impl ShuffleDetection {
    /// A reorder was found, so a key is needed for a trustworthy verdict.
    pub fn needs_key(&self) -> (r: bool)
        ensures
            r == self.reordered,
    {
        self.reordered
    }
}

/// Detect whether rows were reordered under any perfect key candidate;
/// suggest up to three candidate key columns.
pub fn detect_shuffle(
    old_headers: &Vec<Vec<u8>>,
    new_headers: &Vec<Vec<u8>>,
    old_rows: &Vec<Vec<Vec<u8>>>,
    new_rows: &Vec<Vec<Vec<u8>>>,
) -> (r: ShuffleDetection)
    ensures
        ({
            let oh = views_of(old_headers@);
            let nh = views_of(new_headers@);
            let orows = crate::bytes::views_of_records(old_rows@);
            let nrows = crate::bytes::views_of_records(new_rows@);
            let names = crate::key_discovery::spec_candidate_names(oh, nh, orows, nrows);
            &&& r.reordered == spec_reordered(oh, nh, orows, nrows)
            &&& r.suggested_keys@.len() <= 3
            &&& forall|i: int| #![trigger r.suggested_keys@[i]]
                0 <= i < r.suggested_keys@.len() ==> oh.contains(r.suggested_keys@[i]@)
            &&& views_of(r.suggested_keys@) == names.take(
                if names.len() < 3 {
                    names.len() as int
                } else {
                    3
                },
            )
        }),
{
    let ghost oh = views_of(old_headers@);
    let ghost nh = views_of(new_headers@);
    let ghost orows = crate::bytes::views_of_records(old_rows@);
    let ghost nrows = crate::bytes::views_of_records(new_rows@);
    let cands = discover_key_candidates(old_headers, new_headers, old_rows, new_rows);
    let ghost names = crate::key_discovery::spec_candidate_names(oh, nh, orows, nrows);
    proof {
        assert(names == cands@.map_values(|c: crate::key_discovery::KeyCandidate| c.name@));
        assert(names.len() == cands@.len());
    }
    let n = cands.len();
    let mut suggested: Vec<Vec<u8>> = Vec::new();
    let ghost mut wit: Seq<int> = Seq::empty();
    let mut s: usize = 0;
    let stop = if n < 3 {
        n
    } else {
        3
    };
    while s < stop
        invariant
            0 <= s <= stop <= n,
            stop <= 3,
            n == cands@.len(),
            oh == views_of(old_headers@),
            nh == views_of(new_headers@),
            orows == crate::bytes::views_of_records(old_rows@),
            nrows == crate::bytes::views_of_records(new_rows@),
            forall|i: int|
                0 <= i < cands@.len() ==> {
                    let c = #[trigger] cands@[i];
                    &&& 0 <= c.old_index < oh.len()
                    &&& c.name@ == oh[c.old_index as int]
                    &&& c.new_index as int == spec_header_index(nh, c.name@)
                    &&& spec_is_candidate(
                        oh,
                        nh,
                        orows,
                        nrows,
                        c.old_index as int,
                        c.kind == CandidateKind::Perfect,
                    )
                },
            names == crate::key_discovery::spec_candidate_names(oh, nh, orows, nrows),
            names == cands@.map_values(|c: crate::key_discovery::KeyCandidate| c.name@),
            suggested@.len() == s,
            forall|j: int| 0 <= j < s ==> #[trigger] suggested@[j]@ == cands@[j].name@,
            wit.len() == s,
            forall|i: int|
                0 <= i < suggested@.len() ==> 0 <= #[trigger] wit[i] < oh.len()
                    && suggested@[i]@ == oh[wit[i]] && (spec_is_candidate(
                    oh,
                    nh,
                    orows,
                    nrows,
                    wit[i],
                    true,
                ) || spec_is_candidate(oh, nh, orows, nrows, wit[i], false)),
        decreases stop - s,
    {
        let name = crate::bytes::to_vec_bytes(cands[s].name.as_slice());
        proof {
            let c = cands@[s as int];
            assert(c.name@ == oh[c.old_index as int]);
            wit = wit.push(c.old_index as int);
        }
        suggested.push(name);
        s = s + 1;
    }
    // look for a perfect candidate whose value sequences differ
    let mut reordered = false;
    let mut k: usize = 0;
    while k < n && !reordered
        invariant
            0 <= k <= n,
            n == cands@.len(),
            oh == views_of(old_headers@),
            nh == views_of(new_headers@),
            orows == crate::bytes::views_of_records(old_rows@),
            nrows == crate::bytes::views_of_records(new_rows@),
            forall|i: int|
                0 <= i < cands@.len() ==> {
                    let c = #[trigger] cands@[i];
                    &&& 0 <= c.old_index < oh.len()
                    &&& c.name@ == oh[c.old_index as int]
                    &&& c.new_index as int == spec_header_index(nh, c.name@)
                    &&& spec_is_candidate(
                        oh,
                        nh,
                        orows,
                        nrows,
                        c.old_index as int,
                        c.kind == CandidateKind::Perfect,
                    )
                },
            forall|oi2: int|
                0 <= oi2 < oh.len() && (spec_is_candidate(oh, nh, orows, nrows, oi2, true)
                    || spec_is_candidate(oh, nh, orows, nrows, oi2, false)) ==> exists|i: int|
                    0 <= i < cands@.len() && (#[trigger] cands@[i]).old_index == oi2,
            reordered ==> spec_reordered(oh, nh, orows, nrows),
            !reordered ==> forall|i: int|
                0 <= i < k && (#[trigger] cands@[i]).kind == CandidateKind::Perfect
                    ==> spec_col_values(orows, cands@[i].old_index as int) == spec_col_values(
                    nrows,
                    cands@[i].new_index as int,
                ),
        decreases n - k + (if reordered {
            0int
        } else {
            1int
        }),
    {
        let is_perfect = match cands[k].kind {
            CandidateKind::Perfect => true,
            CandidateKind::Joinable => false,
        };
        if is_perfect {
            let ov = col_values_exec(old_rows, cands[k].old_index);
            let nv = col_values_exec(new_rows, cands[k].new_index);
            if !crate::bytes::byte_vecs_equal(&ov, &nv) {
                reordered = true;
                proof {
                    let c = cands@[k as int];
                    assert(spec_is_candidate(oh, nh, orows, nrows, c.old_index as int, true));
                    assert(spec_col_values(orows, c.old_index as int) != spec_col_values(
                        nrows,
                        c.new_index as int,
                    ));
                }
            } else {
                k = k + 1;
            }
        } else {
            k = k + 1;
        }
    }
    proof {
        if !reordered {
            assert(k == n);
            assert forall|oi: int|
                0 <= oi < oh.len() && #[trigger] spec_is_candidate(
                    oh,
                    nh,
                    orows,
                    nrows,
                    oi,
                    true,
                ) implies spec_col_values(orows, oi) == spec_col_values(
                nrows,
                spec_header_index(nh, oh[oi]),
            ) by {
                let i = choose|i: int|
                    0 <= i < cands@.len() && (#[trigger] cands@[i]).old_index == oi;
                let c = cands@[i];
                if c.kind == CandidateKind::Joinable {
                    assert(spec_is_candidate(oh, nh, orows, nrows, oi, false));
                    assert(spec_is_candidate(oh, nh, orows, nrows, oi, true));
                    assert(false);
                }
                assert(c.kind == CandidateKind::Perfect);
                assert(spec_col_values(orows, c.old_index as int) == spec_col_values(
                    nrows,
                    c.new_index as int,
                ));
                assert(c.new_index as int == spec_header_index(nh, oh[oi]));
            }
        }
    }
    let r = ShuffleDetection { reordered, suggested_keys: suggested };
    proof {
        assert forall|i: int| #![trigger r.suggested_keys@[i]]
            0 <= i < r.suggested_keys@.len() implies oh.contains(r.suggested_keys@[i]@) by {
            assert(r.suggested_keys@[i]@ == oh[wit[i]]);
        }
        let cut = if names.len() < 3 {
            names.len() as int
        } else {
            3
        };
        assert(stop as int == cut);
        assert(views_of(r.suggested_keys@) =~= names.take(cut)) by {
            assert(views_of(r.suggested_keys@).len() == stop as int);
            assert forall|j: int| 0 <= j < stop as int implies views_of(r.suggested_keys@)[j]
                == names.take(cut)[j] by {
                assert(views_of(r.suggested_keys@)[j] == r.suggested_keys@[j]@);
                assert(r.suggested_keys@[j]@ == cands@[j].name@);
                assert(names[j] == cands@.map_values(
                    |c: crate::key_discovery::KeyCandidate| c.name@,
                )[j]);
            }
        }
    }
    r
}

} // verus!
