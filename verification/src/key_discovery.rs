//! Key discovery for rerun suggestions, and shuffle detection input.
//!
//! A column is joinable on one side when its trimmed values are non-empty
//! and pairwise distinct; a perfect candidate is joinable on both sides
//! with equal value sets.

use vstd::prelude::*;

use crate::bytes::views_of;
use crate::trim::trim_of;

verus! {

/// Candidate key column kind.
#[derive(Debug, Clone, Copy, PartialEq, Eq, Structural)]
pub enum CandidateKind {
    Perfect,
    Joinable,
}

/// A candidate key column shared by both files.
#[derive(Debug, Clone)]
pub struct KeyCandidate {
    pub name: Vec<u8>,
    pub old_index: usize,
    pub new_index: usize,
    pub kind: CandidateKind,
}

/// First index of a header name, or -1.
pub open spec fn spec_header_index(hs: Seq<Seq<u8>>, name: Seq<u8>) -> int
    decreases hs.len(),
{
    if hs.len() == 0 {
        -1
    } else if hs[0] == name {
        0
    } else {
        let r = spec_header_index(hs.drop_first(), name);
        if r < 0 {
            -1
        } else {
            1 + r
        }
    }
}

/// The trimmed values of one column over blank-filtered rows.
pub open spec fn spec_col_values(rows: Seq<Seq<Seq<u8>>>, idx: int) -> Seq<Seq<u8>> {
    rows.map_values(
        |rec: Seq<Seq<u8>>|
            if 0 <= idx < rec.len() {
                trim_of(rec[idx])
            } else {
                Seq::<u8>::empty()
            },
    )
}

/// No empty values and no duplicates.
pub open spec fn spec_joinable(vals: Seq<Seq<u8>>) -> bool {
    &&& forall|i: int| 0 <= i < vals.len() ==> (#[trigger] vals[i]).len() > 0
    &&& forall|i: int, j: int| 0 <= i < j < vals.len() ==> vals[i] != vals[j]
}

/// The two value collections hold the same set of values.
pub open spec fn spec_sets_equal(a: Seq<Seq<u8>>, b: Seq<Seq<u8>>) -> bool {
    forall|x: Seq<u8>| a.contains(x) <==> b.contains(x)
}

/// Whether an old column is a candidate of the given class: present on
/// both sides, joinable on both, and a matching (perfect) or differing
/// value set.
pub open spec fn spec_is_candidate(
    oh: Seq<Seq<u8>>,
    nh: Seq<Seq<u8>>,
    orows: Seq<Seq<Seq<u8>>>,
    nrows: Seq<Seq<Seq<u8>>>,
    i: int,
    perfect: bool,
) -> bool {
    let ni = spec_header_index(nh, oh[i]);
    &&& ni >= 0
    &&& spec_joinable(spec_col_values(orows, i))
    &&& spec_joinable(spec_col_values(nrows, ni))
    &&& perfect == spec_sets_equal(spec_col_values(orows, i), spec_col_values(nrows, ni))
}

pub fn header_index_exec(hs: &Vec<Vec<u8>>, name: &[u8]) -> (r: Option<usize>)
    ensures
        match r {
            Some(i) => spec_header_index(views_of(hs@), name@) == i && i < hs@.len(),
            None => spec_header_index(views_of(hs@), name@) < 0,
        },
{
    let ghost hv = views_of(hs@);
    let n = hs.len();
    let mut i: usize = 0;
    while i < n
        invariant
            0 <= i <= n,
            n == hs@.len(),
            hv == views_of(hs@),
            forall|j: int| 0 <= j < i ==> #[trigger] hv[j] != name@,
        decreases n - i,
    {
        proof {
            assert(hv[i as int] == hs@[i as int]@);
        }
        if crate::bytes::bytes_eq(hs[i].as_slice(), name) {
            proof {
                lemma_header_index_at(hv, name@, i as int);
            }
            return Some(i);
        }
        i = i + 1;
    }
    proof {
        lemma_header_index_at(hv, name@, n as int);
    }
    None
}

pub proof fn lemma_header_index_at(hs: Seq<Seq<u8>>, name: Seq<u8>, i: int)
    requires
        0 <= i <= hs.len(),
        forall|j: int| 0 <= j < i ==> #[trigger] hs[j] != name,
        i == hs.len() || hs[i] == name,
    ensures
        i < hs.len() ==> spec_header_index(hs, name) == i,
        i == hs.len() ==> spec_header_index(hs, name) < 0,
    decreases i,
{
    if i == 0 {
        if hs.len() > 0 && hs[0] != name {
            lemma_header_index_props(hs, name);
        }
    } else {
        lemma_header_index_at(hs.drop_first(), name, i - 1);
    }
}

pub proof fn lemma_header_index_props(hs: Seq<Seq<u8>>, name: Seq<u8>)
    ensures
        spec_header_index(hs, name) >= 0 ==> spec_header_index(hs, name) < hs.len() && hs[
            spec_header_index(hs, name)
        ] == name && forall|j: int| 0 <= j < spec_header_index(hs, name) ==> #[trigger] hs[j]
            != name,
        spec_header_index(hs, name) < 0 ==> forall|j: int|
            0 <= j < hs.len() ==> #[trigger] hs[j] != name,
    decreases hs.len(),
{
    if hs.len() > 0 && hs[0] != name {
        let t = hs.drop_first();
        lemma_header_index_props(t, name);
        assert(forall|j: int| 1 <= j < hs.len() ==> #[trigger] hs[j] == t[j - 1]);
    }
}

/// The trimmed values of one column, as owned vectors.
pub fn col_values_exec(rows: &Vec<Vec<Vec<u8>>>, idx: usize) -> (r: Vec<Vec<u8>>)
    ensures
        views_of(r@) == spec_col_values(crate::bytes::views_of_records(rows@), idx as int),
{
    let ghost rv = crate::bytes::views_of_records(rows@);
    let n = rows.len();
    let mut out: Vec<Vec<u8>> = Vec::new();
    let mut i: usize = 0;
    while i < n
        invariant
            0 <= i <= n,
            n == rows@.len(),
            rv == crate::bytes::views_of_records(rows@),
            out@.len() == i,
            views_of(out@) =~= spec_col_values(rv, idx as int).take(i as int),
        decreases n - i,
    {
        proof {
            assert(rv[i as int] == views_of(rows@[i as int]@));
            if idx < rows@[i as int]@.len() {
                assert(views_of(rows@[i as int]@)[idx as int] == rows@[i as int]@[idx as int]@);
            }
        }
        let ghost pre = views_of(out@);
        let rec = &rows[i];
        let v: Vec<u8> = if idx < rec.len() {
            crate::bytes::to_vec_bytes(crate::trim::ascii_trim(rec[idx].as_slice()))
        } else {
            Vec::new()
        };
        proof {
            if !(idx < rows@[i as int]@.len()) {
                crate::trim::lemma_blank_iff_trim_empty(Seq::<u8>::empty());
            }
        }
        out.push(v);
        proof {
            assert(views_of(out@) =~= pre.push(spec_col_values(rv, idx as int)[i as int]));
            assert(views_of(out@) =~= spec_col_values(rv, idx as int).take(i + 1));
        }
        i = i + 1;
    }
    proof {
        assert(spec_col_values(rv, idx as int).take(n as int) =~= spec_col_values(rv, idx as int));
    }
    out
}

/// No empty values and no duplicates among the given values.
pub fn joinable_exec(vals: &Vec<Vec<u8>>) -> (r: bool)
    ensures
        r == spec_joinable(views_of(vals@)),
{
    let ghost vv = views_of(vals@);
    let n = vals.len();
    let mut i: usize = 0;
    while i < n
        invariant
            0 <= i <= n,
            n == vals@.len(),
            vv == views_of(vals@),
            forall|j: int| 0 <= j < i ==> (#[trigger] vv[j]).len() > 0,
            forall|a: int, b: int| 0 <= a < b < i ==> vv[a] != vv[b],
        decreases n - i,
    {
        proof {
            assert(vv[i as int] == vals@[i as int]@);
        }
        if vals[i].len() == 0 {
            return false;
        }
        let mut j: usize = 0;
        while j < i
            invariant
                0 <= j <= i < n,
                n == vals@.len(),
                vv == views_of(vals@),
                forall|b: int| 0 <= b < j ==> vv[b] != vv[i as int],
            decreases i - j,
        {
            proof {
                assert(vv[j as int] == vals@[j as int]@);
                assert(vv[i as int] == vals@[i as int]@);
            }
            if crate::bytes::bytes_eq(vals[j].as_slice(), vals[i].as_slice()) {
                return false;
            }
            j = j + 1;
        }
        i = i + 1;
    }
    true
}

/// Every value of `a` occurs in `b` and vice versa.
pub fn sets_equal_exec(a: &Vec<Vec<u8>>, b: &Vec<Vec<u8>>) -> (r: bool)
    ensures
        r == spec_sets_equal(views_of(a@), views_of(b@)),
{
    let ghost av = views_of(a@);
    let ghost bv = views_of(b@);
    if !subset_exec(a, b) {
        return false;
    }
    if !subset_exec(b, a) {
        return false;
    }
    proof {
        assert forall|x: Seq<u8>| av.contains(x) implies bv.contains(x) by {}
    }
    true
}

fn subset_exec(a: &Vec<Vec<u8>>, b: &Vec<Vec<u8>>) -> (r: bool)
    ensures
        r == forall|x: Seq<u8>| views_of(a@).contains(x) ==> views_of(b@).contains(x),
{
    let ghost av = views_of(a@);
    let ghost bv = views_of(b@);
    let n = a.len();
    let mut i: usize = 0;
    while i < n
        invariant
            0 <= i <= n,
            n == a@.len(),
            av == views_of(a@),
            bv == views_of(b@),
            forall|j: int| 0 <= j < i ==> bv.contains(#[trigger] av[j]),
        decreases n - i,
    {
        proof {
            assert(av[i as int] == a@[i as int]@);
        }
        let mut found = false;
        let m = b.len();
        let mut j: usize = 0;
        while j < m && !found
            invariant
                0 <= j <= m,
                m == b@.len(),
                bv == views_of(b@),
                av == views_of(a@),
                i < a@.len(),
                found ==> bv.contains(av[i as int]),
                !found ==> forall|q: int| 0 <= q < j ==> bv[q] != av[i as int],
            decreases m - j + (if found { 0int } else { 1int }),
        {
            proof {
                assert(bv[j as int] == b@[j as int]@);
                assert(av[i as int] == a@[i as int]@);
            }
            if crate::bytes::bytes_eq(b[j].as_slice(), a[i].as_slice()) {
                found = true;
                proof {
                    assert(bv.contains(av[i as int]));
                }
            } else {
                j = j + 1;
            }
        }
        if !found {
            proof {
                if bv.contains(av[i as int]) {
                    let w = choose|w: int| 0 <= w < bv.len() && bv[w] == av[i as int];
                }
                assert(!bv.contains(av[i as int]));
                assert(av.contains(av[i as int]));
            }
            return false;
        }
        i = i + 1;
    }
    proof {
        assert forall|x: Seq<u8>| av.contains(x) implies bv.contains(x) by {
            let w = choose|w: int| 0 <= w < av.len() && av[w] == x;
        }
    }
    true
}

/// Old-header indices below `n` of candidates of one class, ascending.
pub open spec fn spec_candidate_indices(
    oh: Seq<Seq<u8>>,
    nh: Seq<Seq<u8>>,
    orows: Seq<Seq<Seq<u8>>>,
    nrows: Seq<Seq<Seq<u8>>>,
    n: int,
    perfect: bool,
) -> Seq<int>
    decreases n,
{
    if n <= 0 {
        Seq::empty()
    } else {
        let pre = spec_candidate_indices(oh, nh, orows, nrows, n - 1, perfect);
        if spec_is_candidate(oh, nh, orows, nrows, n - 1, perfect) {
            pre.push(n - 1)
        } else {
            pre
        }
    }
}

/// The names of every discovered candidate, in report order: the perfect
/// ones first, each class in old-header order.
pub open spec fn spec_candidate_names(
    oh: Seq<Seq<u8>>,
    nh: Seq<Seq<u8>>,
    orows: Seq<Seq<Seq<u8>>>,
    nrows: Seq<Seq<Seq<u8>>>,
) -> Seq<Seq<u8>> {
    spec_candidate_indices(oh, nh, orows, nrows, oh.len() as int, true).map_values(
        |ix: int| oh[ix],
    ) + spec_candidate_indices(oh, nh, orows, nrows, oh.len() as int, false).map_values(
        |ix: int| oh[ix],
    )
}

/// Discover candidate key columns, perfect ones first, each group in old
/// header order; non-joinable columns never appear.
pub fn discover_key_candidates(
    old_headers: &Vec<Vec<u8>>,
    new_headers: &Vec<Vec<u8>>,
    old_rows: &Vec<Vec<Vec<u8>>>,
    new_rows: &Vec<Vec<Vec<u8>>>,
) -> (r: Vec<KeyCandidate>)
    ensures
        ({
            let oh = views_of(old_headers@);
            let nh = views_of(new_headers@);
            let orows = crate::bytes::views_of_records(old_rows@);
            let nrows = crate::bytes::views_of_records(new_rows@);
            &&& forall|i: int|
                0 <= i < r@.len() ==> {
                    let c = #[trigger] r@[i];
                    &&& 0 <= c.old_index < oh.len()
                    &&& c.name@ == oh[c.old_index as int]
                    &&& c.new_index as int == spec_header_index(nh, c.name@)
                    &&& spec_is_candidate(
                        oh,
                        nh,
                        orows,
                        nrows,
                        c.old_index as int,
                        c.kind == CandidateKind::Perfect,
                    )
                }
            &&& forall|i: int, j: int|
                0 <= i < j < r@.len() && #[trigger] r@[i].kind == #[trigger] r@[j].kind
                    ==> r@[i].old_index < r@[j].old_index
            &&& forall|i: int, j: int|
                0 <= i < j < r@.len() ==> !(r@[i].kind == CandidateKind::Joinable && r@[j].kind
                    == CandidateKind::Perfect)
            &&& forall|oi: int|
                0 <= oi < oh.len() && (spec_is_candidate(oh, nh, orows, nrows, oi, true)
                    || spec_is_candidate(oh, nh, orows, nrows, oi, false)) ==> exists|i: int|
                    0 <= i < r@.len() && (#[trigger] r@[i]).old_index == oi
            &&& r@.map_values(|c: KeyCandidate| c.name@) == spec_candidate_names(
                oh,
                nh,
                orows,
                nrows,
            )
        }),
{
    let ghost oh = views_of(old_headers@);
    let ghost nh = views_of(new_headers@);
    let ghost orows = crate::bytes::views_of_records(old_rows@);
    let ghost nrows = crate::bytes::views_of_records(new_rows@);
    let n = old_headers.len();
    let mut perfect: Vec<KeyCandidate> = Vec::new();
    let mut joinable: Vec<KeyCandidate> = Vec::new();
    let mut i: usize = 0;
    proof {
        assert(perfect@.map_values(|c: KeyCandidate| c.old_index as int) =~= Seq::<int>::empty());
        assert(joinable@.map_values(|c: KeyCandidate| c.old_index as int) =~= Seq::<int>::empty());
    }
    while i < n
        invariant
            0 <= i <= n,
            n == old_headers@.len(),
            oh == views_of(old_headers@),
            nh == views_of(new_headers@),
            orows == crate::bytes::views_of_records(old_rows@),
            nrows == crate::bytes::views_of_records(new_rows@),
            forall|k: int|
                0 <= k < perfect@.len() ==> {
                    let c = #[trigger] perfect@[k];
                    &&& 0 <= c.old_index < i
                    &&& c.name@ == oh[c.old_index as int]
                    &&& c.new_index as int == spec_header_index(nh, c.name@)
                    &&& c.kind == CandidateKind::Perfect
                    &&& spec_is_candidate(oh, nh, orows, nrows, c.old_index as int, true)
                },
            forall|k: int|
                0 <= k < joinable@.len() ==> {
                    let c = #[trigger] joinable@[k];
                    &&& 0 <= c.old_index < i
                    &&& c.name@ == oh[c.old_index as int]
                    &&& c.new_index as int == spec_header_index(nh, c.name@)
                    &&& c.kind == CandidateKind::Joinable
                    &&& spec_is_candidate(oh, nh, orows, nrows, c.old_index as int, false)
                },
            forall|a: int, b: int|
                0 <= a < b < perfect@.len() ==> (#[trigger] perfect@[a]).old_index
                    < (#[trigger] perfect@[b]).old_index,
            forall|a: int, b: int|
                0 <= a < b < joinable@.len() ==> (#[trigger] joinable@[a]).old_index
                    < (#[trigger] joinable@[b]).old_index,
            forall|oi: int|
                0 <= oi < i && (spec_is_candidate(oh, nh, orows, nrows, oi, true)
                    || spec_is_candidate(oh, nh, orows, nrows, oi, false)) ==> (exists|k: int|
                    0 <= k < perfect@.len() && (#[trigger] perfect@[k]).old_index == oi) || (exists|
                    k: int,
                |
                    0 <= k < joinable@.len() && (#[trigger] joinable@[k]).old_index == oi),
            perfect@.map_values(|c: KeyCandidate| c.old_index as int) == spec_candidate_indices(
                oh,
                nh,
                orows,
                nrows,
                i as int,
                true,
            ),
            joinable@.map_values(|c: KeyCandidate| c.old_index as int) == spec_candidate_indices(
                oh,
                nh,
                orows,
                nrows,
                i as int,
                false,
            ),
        decreases n - i,
    {
        proof {
            assert(oh[i as int] == old_headers@[i as int]@);
        }
        match header_index_exec(new_headers, old_headers[i].as_slice()) {
            None => {
                proof {
                    assert(!spec_is_candidate(oh, nh, orows, nrows, i as int, true));
                    assert(!spec_is_candidate(oh, nh, orows, nrows, i as int, false));
                    assert(spec_candidate_indices(oh, nh, orows, nrows, i as int + 1, true)
                        == spec_candidate_indices(oh, nh, orows, nrows, i as int, true));
                    assert(spec_candidate_indices(oh, nh, orows, nrows, i as int + 1, false)
                        == spec_candidate_indices(oh, nh, orows, nrows, i as int, false));
                }
            },
            Some(ni) => {
                let ovals = col_values_exec(old_rows, i);
                let nvals = col_values_exec(new_rows, ni);
                if joinable_exec(&ovals) && joinable_exec(&nvals) {
                    let eq = sets_equal_exec(&ovals, &nvals);
                    let cand = KeyCandidate {
                        name: crate::bytes::to_vec_bytes(old_headers[i].as_slice()),
                        old_index: i,
                        new_index: ni,
                        kind: if eq {
                            CandidateKind::Perfect
                        } else {
                            CandidateKind::Joinable
                        },
                    };
                    let ghost pre_p = perfect@;
                    let ghost pre_j = joinable@;
                    if eq {
                        perfect.push(cand);
                        proof {
                            assert(perfect@[perfect@.len() - 1].old_index == i);
                            assert(spec_is_candidate(oh, nh, orows, nrows, i as int, true));
                            assert(!spec_is_candidate(oh, nh, orows, nrows, i as int, false));
                            assert(perfect@ =~= pre_p.push(cand));
                            assert(perfect@.map_values(|c: KeyCandidate| c.old_index as int)
                                =~= pre_p.map_values(|c: KeyCandidate| c.old_index as int).push(
                                i as int,
                            ));
                            assert(spec_candidate_indices(oh, nh, orows, nrows, i as int + 1, true)
                                == spec_candidate_indices(oh, nh, orows, nrows, i as int, true).push(
                                i as int,
                            ));
                            assert(spec_candidate_indices(oh, nh, orows, nrows, i as int + 1, false)
                                == spec_candidate_indices(oh, nh, orows, nrows, i as int, false));
                        }
                        proof {
                            assert forall|oi: int|
                                0 <= oi < i + 1 && (spec_is_candidate(oh, nh, orows, nrows, oi, true)
                                    || spec_is_candidate(
                                    oh,
                                    nh,
                                    orows,
                                    nrows,
                                    oi,
                                    false,
                                )) implies ((exists|k: int|
                                0 <= k < perfect@.len() && (#[trigger] perfect@[k]).old_index == oi)
                                || (exists|k: int|
                                0 <= k < joinable@.len() && (#[trigger] joinable@[k]).old_index
                                    == oi)) by {
                                if oi == i {
                                    assert(perfect@[perfect@.len() - 1].old_index == i || joinable@[
                                        joinable@.len() - 1
                                    ].old_index == i);
                                } else {
                                    if exists|k: int|
                                        0 <= k < pre_p.len() && (#[trigger] pre_p[k]).old_index
                                            == oi {
                                        let k = choose|k: int|
                                            0 <= k < pre_p.len() && (#[trigger] pre_p[k]).old_index
                                                == oi;
                                        assert(perfect@[k].old_index == oi);
                                    } else {
                                        let k = choose|k: int|
                                            0 <= k < pre_j.len() && (#[trigger] pre_j[k]).old_index
                                                == oi;
                                        assert(joinable@[k].old_index == oi);
                                    }
                                }
                            }
                        }
                    } else {
                        joinable.push(cand);
                        proof {
                            assert(joinable@[joinable@.len() - 1].old_index == i);
                            assert(spec_is_candidate(oh, nh, orows, nrows, i as int, false));
                            assert(!spec_is_candidate(oh, nh, orows, nrows, i as int, true));
                            assert(joinable@ =~= pre_j.push(cand));
                            assert(joinable@.map_values(|c: KeyCandidate| c.old_index as int)
                                =~= pre_j.map_values(|c: KeyCandidate| c.old_index as int).push(
                                i as int,
                            ));
                            assert(spec_candidate_indices(oh, nh, orows, nrows, i as int + 1, false)
                                == spec_candidate_indices(oh, nh, orows, nrows, i as int, false).push(
                                i as int,
                            ));
                            assert(spec_candidate_indices(oh, nh, orows, nrows, i as int + 1, true)
                                == spec_candidate_indices(oh, nh, orows, nrows, i as int, true));
                        }
                        proof {
                            assert forall|oi: int|
                                0 <= oi < i + 1 && (spec_is_candidate(oh, nh, orows, nrows, oi, true)
                                    || spec_is_candidate(
                                    oh,
                                    nh,
                                    orows,
                                    nrows,
                                    oi,
                                    false,
                                )) implies ((exists|k: int|
                                0 <= k < perfect@.len() && (#[trigger] perfect@[k]).old_index == oi)
                                || (exists|k: int|
                                0 <= k < joinable@.len() && (#[trigger] joinable@[k]).old_index
                                    == oi)) by {
                                if oi == i {
                                    assert(perfect@[perfect@.len() - 1].old_index == i || joinable@[
                                        joinable@.len() - 1
                                    ].old_index == i);
                                } else {
                                    if exists|k: int|
                                        0 <= k < pre_p.len() && (#[trigger] pre_p[k]).old_index
                                            == oi {
                                        let k = choose|k: int|
                                            0 <= k < pre_p.len() && (#[trigger] pre_p[k]).old_index
                                                == oi;
                                        assert(perfect@[k].old_index == oi);
                                    } else {
                                        let k = choose|k: int|
                                            0 <= k < pre_j.len() && (#[trigger] pre_j[k]).old_index
                                                == oi;
                                        assert(joinable@[k].old_index == oi);
                                    }
                                }
                            }
                        }
                    }
                } else {
                    proof {
                        assert(!spec_is_candidate(oh, nh, orows, nrows, i as int, true));
                        assert(!spec_is_candidate(oh, nh, orows, nrows, i as int, false));
                        assert(spec_candidate_indices(oh, nh, orows, nrows, i as int + 1, true)
                            == spec_candidate_indices(oh, nh, orows, nrows, i as int, true));
                        assert(spec_candidate_indices(oh, nh, orows, nrows, i as int + 1, false)
                            == spec_candidate_indices(oh, nh, orows, nrows, i as int, false));
                    }
                }
            },
        }
        i = i + 1;
    }
    // perfect candidates first, then the joinable ones
    let ghost perfect_v = perfect@;
    let ghost joinable_v = joinable@;
    let mut out = perfect;
    let mut j: usize = 0;
    let jn = joinable.len();
    let ghost pn = perfect_v.len();
    while j < jn
        invariant
            0 <= j <= jn,
            jn == joinable@.len(),
            joinable@ == joinable_v,
            out@.len() == pn + j,
            forall|k: int| 0 <= k < pn ==> #[trigger] out@[k] == perfect_v[k],
            forall|k: int|
                pn <= k < out@.len() ==> {
                    let c = #[trigger] out@[k];
                    let d = joinable_v[k - pn];
                    c.name@ == d.name@ && c.old_index == d.old_index && c.new_index == d.new_index
                        && c.kind == d.kind
                },
        decreases jn - j,
    {
        let item = KeyCandidate {
            name: crate::bytes::to_vec_bytes(joinable[j].name.as_slice()),
            old_index: joinable[j].old_index,
            new_index: joinable[j].new_index,
            kind: joinable[j].kind,
        };
        out.push(item);
        j = j + 1;
    }
    proof {
        let names = out@.map_values(|c: KeyCandidate| c.name@);
        let ixs_t = spec_candidate_indices(oh, nh, orows, nrows, oh.len() as int, true);
        let ixs_j = spec_candidate_indices(oh, nh, orows, nrows, oh.len() as int, false);
        assert(oh.len() == n as int);
        assert(perfect_v.map_values(|c: KeyCandidate| c.old_index as int) == ixs_t);
        assert(joinable_v.map_values(|c: KeyCandidate| c.old_index as int) == ixs_j);
        assert(pn == ixs_t.len());
        assert(joinable_v.len() == ixs_j.len());
        let target = ixs_t.map_values(|ix: int| oh[ix]) + ixs_j.map_values(|ix: int| oh[ix]);
        assert forall|k: int| 0 <= k < names.len() implies names[k] == target[k] by {
            if k < pn {
                assert(out@[k] == perfect_v[k]);
                assert(perfect_v.map_values(|c: KeyCandidate| c.old_index as int)[k]
                    == perfect_v[k].old_index as int);
                assert(ixs_t[k] == perfect_v[k].old_index as int);
                assert(names[k] == perfect_v[k].name@);
                assert(perfect_v[k].name@ == oh[perfect_v[k].old_index as int]);
                assert(target[k] == oh[ixs_t[k]]);
            } else {
                assert(out@[k].name@ == joinable_v[k - pn].name@);
                assert(joinable_v.map_values(|c: KeyCandidate| c.old_index as int)[k - pn]
                    == joinable_v[k - pn].old_index as int);
                assert(ixs_j[k - pn] == joinable_v[k - pn].old_index as int);
                assert(names[k] == out@[k].name@);
                assert(joinable_v[k - pn].name@ == oh[joinable_v[k - pn].old_index as int]);
                assert(target[k] == oh[ixs_j[k - pn]]);
            }
        }
        assert(names =~= spec_candidate_names(oh, nh, orows, nrows));
        assert forall|oi: int|
            0 <= oi < oh.len() && (spec_is_candidate(oh, nh, orows, nrows, oi, true)
                || spec_is_candidate(oh, nh, orows, nrows, oi, false)) implies exists|i2: int|
            0 <= i2 < out@.len() && (#[trigger] out@[i2]).old_index == oi by {
            if exists|k: int| 0 <= k < perfect_v.len() && (#[trigger] perfect_v[k]).old_index == oi {
                let k = choose|k: int|
                    0 <= k < perfect_v.len() && (#[trigger] perfect_v[k]).old_index == oi;
                assert(out@[k].old_index == oi);
            } else {
                let k = choose|k: int|
                    0 <= k < joinable_v.len() && (#[trigger] joinable_v[k]).old_index == oi;
                assert(out@[pn + k].old_index == oi);
            }
        }
    }
    out
}

} // verus!
