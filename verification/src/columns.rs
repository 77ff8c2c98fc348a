//! Column typing: header intersection, and the numeric-column decision
//! with its mixed-type and missingness refusals.
//!
//! Each common column is scanned over the aligned rows: a pair of missing
//! values is ignored; missing against numeric refuses at once; a column
//! that mixes numeric and non-numeric values refuses with the first
//! offending value; the refusal raised earliest (by row, then column)
//! wins, matching a row-major sweep.

use vstd::prelude::*;

use crate::bytes::views_of;
use crate::missing::spec_is_missing_token;
use crate::numeric::spec_is_numeric;

verus! {

/// File side for error reporting.
#[derive(Debug, Clone, Copy, PartialEq, Eq, Structural)]
pub enum Side {
    Old,
    New,
}

/// The identity of one aligned row: both record numbers and, in key mode,
/// the key bytes.
#[derive(Debug, Clone)]
pub struct RowRef {
    pub old_record: u64,
    pub new_record: u64,
    pub key: Option<Vec<u8>>,
}

impl RowRef {
    /// The record number on the given side.
    pub fn record_for(&self, side: Side) -> (r: u64)
        ensures
            side == Side::Old ==> r == self.old_record,
            side == Side::New ==> r == self.new_record,
    {
        match side {
            Side::Old => self.old_record,
            Side::New => self.new_record,
        }
    }
}

/// Column present in both files (after header normalization).
#[derive(Debug, Clone)]
pub struct CommonColumn {
    pub name: Vec<u8>,
    pub old_index: usize,
    pub new_index: usize,
}

/// Header intersection results (excluding the key column, if provided).
#[derive(Debug, Clone)]
pub struct ColumnIntersection {
    pub common: Vec<CommonColumn>,
    pub old_only: Vec<Vec<u8>>,
    pub new_only: Vec<Vec<u8>>,
}

/// Error for a column that mixes numeric and non-numeric values.
#[derive(Debug, Clone)]
pub struct MixedTypesError {
    pub row: RowRef,
    pub column: Vec<u8>,
    pub side: Side,
    pub value: Vec<u8>,
}

/// Error for a missing value facing a numeric one.
#[derive(Debug, Clone)]
pub struct MissingnessError {
    pub row: RowRef,
    pub column: Vec<u8>,
    pub missing_side: Side,
    pub present_value: Vec<u8>,
}

/// Column typing failure.
#[derive(Debug, Clone)]
pub enum ColumnTypingError {
    MixedTypes(MixedTypesError),
    Missingness(MissingnessError),
}

/// The common columns, in old header order: names on both sides, the key
/// column excluded.
pub open spec fn spec_common_cols(oh: Seq<Seq<u8>>, nh: Seq<Seq<u8>>, kn: Seq<u8>, i: int) -> Seq<
    (Seq<u8>, int, int),
>
    decreases oh.len() - i,
{
    if i < 0 || i >= oh.len() {
        Seq::empty()
    } else {
        let rest = spec_common_cols(oh, nh, kn, i + 1);
        let ni = crate::key_discovery::spec_header_index(nh, oh[i]);
        if oh[i] != kn && ni >= 0 {
            seq![(oh[i], i, ni)] + rest
        } else {
            rest
        }
    }
}

/// The old-only column names, in old header order.
pub open spec fn spec_old_only(oh: Seq<Seq<u8>>, nh: Seq<Seq<u8>>, kn: Seq<u8>, i: int) -> Seq<
    Seq<u8>,
>
    decreases oh.len() - i,
{
    if i < 0 || i >= oh.len() {
        Seq::empty()
    } else {
        let rest = spec_old_only(oh, nh, kn, i + 1);
        if oh[i] != kn && crate::key_discovery::spec_header_index(nh, oh[i]) < 0 {
            seq![oh[i]] + rest
        } else {
            rest
        }
    }
}

/// The new-only column names, in new header order.
pub open spec fn spec_new_only(oh: Seq<Seq<u8>>, nh: Seq<Seq<u8>>, kn: Seq<u8>, j: int) -> Seq<
    Seq<u8>,
>
    decreases nh.len() - j,
{
    if j < 0 || j >= nh.len() {
        Seq::empty()
    } else {
        let rest = spec_new_only(oh, nh, kn, j + 1);
        if nh[j] != kn && crate::key_discovery::spec_header_index(oh, nh[j]) < 0 {
            seq![nh[j]] + rest
        } else {
            rest
        }
    }
}

/// The view of one common column.
pub open spec fn cc_view(c: CommonColumn) -> (Seq<u8>, int, int) {
    (c.name@, c.old_index as int, c.new_index as int)
}

/// The views of a common column list.
pub open spec fn cc_views(s: Seq<CommonColumn>) -> Seq<(Seq<u8>, int, int)> {
    s.map_values(|c: CommonColumn| cc_view(c))
}

/// Compute the common columns and the one-side-only name lists.
pub fn intersect_headers(
    old_headers: &Vec<Vec<u8>>,
    new_headers: &Vec<Vec<u8>>,
    key: Option<&Vec<u8>>,
) -> (r: ColumnIntersection)
    ensures
        ({
            let oh = views_of(old_headers@);
            let nh = views_of(new_headers@);
            let kn = match key {
                Some(k) => k@,
                None => Seq::<u8>::empty(),
            };
            &&& cc_views(r.common@) == spec_common_cols(oh, nh, kn, 0)
            &&& views_of(r.old_only@) == spec_old_only(oh, nh, kn, 0)
            &&& views_of(r.new_only@) == spec_new_only(oh, nh, kn, 0)
        }),
{
    let ghost oh = views_of(old_headers@);
    let ghost nh = views_of(new_headers@);
    let kempty: Vec<u8> = Vec::new();
    let kname: &Vec<u8> = match key {
        Some(k) => k,
        None => &kempty,
    };
    let ghost kn = kname@;
    let n = old_headers.len();
    let m = new_headers.len();
    let mut common: Vec<CommonColumn> = Vec::new();
    let mut old_only: Vec<Vec<u8>> = Vec::new();
    let mut i: usize = 0;
    proof {
        assert(cc_views(common@) =~= Seq::<(Seq<u8>, int, int)>::empty());
        assert(views_of(old_only@) =~= Seq::<Seq<u8>>::empty());
    }
    while i < n
        invariant
            0 <= i <= n,
            n == old_headers@.len(),
            oh == views_of(old_headers@),
            nh == views_of(new_headers@),
            kn == kname@,
            spec_common_cols(oh, nh, kn, 0) == cc_views(common@) + spec_common_cols(
                oh,
                nh,
                kn,
                i as int,
            ),
            spec_old_only(oh, nh, kn, 0) == views_of(old_only@) + spec_old_only(
                oh,
                nh,
                kn,
                i as int,
            ),
        decreases n - i,
    {
        proof {
            assert(oh[i as int] == old_headers@[i as int]@);
        }
        let name_matches_key = crate::bytes::bytes_eq(
            old_headers[i].as_slice(),
            kname.as_slice(),
        );
        if !name_matches_key {
            match crate::key_discovery::header_index_exec(
                new_headers,
                old_headers[i].as_slice(),
            ) {
                Some(ni) => {
                    let ghost pre = cc_views(common@);
                    common.push(
                        CommonColumn {
                            name: crate::bytes::to_vec_bytes(old_headers[i].as_slice()),
                            old_index: i,
                            new_index: ni,
                        },
                    );
                    proof {
                        assert(cc_views(common@) =~= pre.push((oh[i as int], i as int, ni as int)));
                        assert(pre.push((oh[i as int], i as int, ni as int)) + spec_common_cols(
                            oh,
                            nh,
                            kn,
                            i + 1,
                        ) =~= pre + (seq![(oh[i as int], i as int, ni as int)] + spec_common_cols(
                            oh,
                            nh,
                            kn,
                            i + 1,
                        )));
                    }
                },
                None => {
                    let ghost pre = views_of(old_only@);
                    old_only.push(crate::bytes::to_vec_bytes(old_headers[i].as_slice()));
                    proof {
                        assert(views_of(old_only@) =~= pre.push(oh[i as int]));
                        assert(pre.push(oh[i as int]) + spec_old_only(oh, nh, kn, i + 1) =~= pre + (
                        seq![oh[i as int]] + spec_old_only(oh, nh, kn, i + 1)));
                    }
                },
            }
        }
        i = i + 1;
    }
    let mut new_only: Vec<Vec<u8>> = Vec::new();
    let mut j: usize = 0;
    proof {
        assert(views_of(new_only@) =~= Seq::<Seq<u8>>::empty());
    }
    while j < m
        invariant
            0 <= j <= m,
            m == new_headers@.len(),
            oh == views_of(old_headers@),
            nh == views_of(new_headers@),
            kn == kname@,
            spec_new_only(oh, nh, kn, 0) == views_of(new_only@) + spec_new_only(
                oh,
                nh,
                kn,
                j as int,
            ),
        decreases m - j,
    {
        proof {
            assert(nh[j as int] == new_headers@[j as int]@);
        }
        let name_matches_key = crate::bytes::bytes_eq(
            new_headers[j].as_slice(),
            kname.as_slice(),
        );
        if !name_matches_key {
            match crate::key_discovery::header_index_exec(
                old_headers,
                new_headers[j].as_slice(),
            ) {
                Some(_) => {},
                None => {
                    let ghost pre = views_of(new_only@);
                    new_only.push(crate::bytes::to_vec_bytes(new_headers[j].as_slice()));
                    proof {
                        assert(views_of(new_only@) =~= pre.push(nh[j as int]));
                        assert(pre.push(nh[j as int]) + spec_new_only(oh, nh, kn, j + 1) =~= pre + (
                        seq![nh[j as int]] + spec_new_only(oh, nh, kn, j + 1)));
                    }
                },
            }
        }
        j = j + 1;
    }
    proof {
        assert(cc_views(common@) + Seq::<(Seq<u8>, int, int)>::empty() =~= cc_views(common@));
        assert(views_of(old_only@) + Seq::<Seq<u8>>::empty() =~= views_of(old_only@));
        assert(views_of(new_only@) + Seq::<Seq<u8>>::empty() =~= views_of(new_only@));
    }
    ColumnIntersection { common, old_only, new_only }
}


/// The spec view of one aligned row's identity.
pub open spec fn rr_view(r: RowRef) -> (u64, u64, Option<Seq<u8>>) {
    (
        r.old_record,
        r.new_record,
        match r.key {
            Some(k) => Some(k@),
            None => None,
        },
    )
}

/// The spec view of the aligned rows handed to the typing pass.
pub open spec fn aligned_views(s: Seq<(RowRef, Vec<Vec<u8>>, Vec<Vec<u8>>)>) -> Seq<
    ((u64, u64, Option<Seq<u8>>), Seq<Seq<u8>>, Seq<Seq<u8>>),
> {
    s.map_values(
        |t: (RowRef, Vec<Vec<u8>>, Vec<Vec<u8>>)| (rr_view(t.0), views_of(t.1@), views_of(t.2@)),
    )
}

/// A field read at an index, empty when out of range.
pub open spec fn fld(rec: Seq<Seq<u8>>, idx: int) -> Seq<u8> {
    if 0 <= idx < rec.len() {
        rec[idx]
    } else {
        Seq::<u8>::empty()
    }
}

/// One column's scan over the aligned rows. `Ok` carries whether a
/// numeric pair was seen; an error is (kind, raise row, reported row,
/// side, value) with kind 0 for missingness and 1 for mixed types, side 0
/// for old and 1 for new.
pub open spec fn spec_col_scan(
    rows: Seq<((u64, u64, Option<Seq<u8>>), Seq<Seq<u8>>, Seq<Seq<u8>>)>,
    oi: int,
    ni: int,
    k: int,
    saw: bool,
    rec: Option<(int, int, Seq<u8>)>,
) -> Result<bool, (int, int, int, int, Seq<u8>)>
    decreases rows.len() - k,
{
    if k < 0 || k >= rows.len() {
        Ok(saw)
    } else {
        let ov = fld(rows[k].1, oi);
        let nv = fld(rows[k].2, ni);
        let om = spec_is_missing_token(ov);
        let nm = spec_is_missing_token(nv);
        if om && nm {
            spec_col_scan(rows, oi, ni, k + 1, saw, rec)
        } else if om || nm {
            let pv = if om {
                nv
            } else {
                ov
            };
            let pside: int = if om {
                1
            } else {
                0
            };
            let mside: int = if om {
                0
            } else {
                1
            };
            if spec_is_numeric(pv) {
                Err((0, k, k, mside, pv))
            } else if saw {
                Err((1, k, k, pside, pv))
            } else {
                let rec2 = if rec is None {
                    Some((k, pside, pv))
                } else {
                    rec
                };
                spec_col_scan(rows, oi, ni, k + 1, saw, rec2)
            }
        } else {
            let on = spec_is_numeric(ov);
            let nn = spec_is_numeric(nv);
            if on && nn {
                match rec {
                    Some(rr) => Err((1, k, rr.0, rr.1, rr.2)),
                    None => spec_col_scan(rows, oi, ni, k + 1, true, rec),
                }
            } else if on || nn {
                let nnv = if on {
                    nv
                } else {
                    ov
                };
                let nns: int = if on {
                    1
                } else {
                    0
                };
                if saw {
                    Err((1, k, k, nns, nnv))
                } else {
                    let rec2 = if rec is None {
                        Some((k, nns, nnv))
                    } else {
                        rec
                    };
                    spec_col_scan(rows, oi, ni, k + 1, saw, rec2)
                }
            } else {
                if saw {
                    Err((1, k, k, 0, ov))
                } else {
                    let rec2 = if rec is None {
                        Some((k, 0, ov))
                    } else {
                        rec
                    };
                    spec_col_scan(rows, oi, ni, k + 1, saw, rec2)
                }
            }
        }
    }
}

/// A column's scan result from the start.
pub open spec fn spec_col_result(
    rows: Seq<((u64, u64, Option<Seq<u8>>), Seq<Seq<u8>>, Seq<Seq<u8>>)>,
    oi: int,
    ni: int,
) -> Result<bool, (int, int, int, int, Seq<u8>)> {
    spec_col_scan(rows, oi, ni, 0, false, None)
}

/// The numeric columns: those whose scan succeeds having seen a number.
pub open spec fn spec_numeric_list(
    cols: Seq<(Seq<u8>, int, int)>,
    rows: Seq<((u64, u64, Option<Seq<u8>>), Seq<Seq<u8>>, Seq<Seq<u8>>)>,
    i: int,
) -> Seq<(Seq<u8>, int, int)>
    decreases cols.len() - i,
{
    if i < 0 || i >= cols.len() {
        Seq::empty()
    } else {
        let rest = spec_numeric_list(cols, rows, i + 1);
        if spec_col_result(rows, cols[i].1, cols[i].2) == Result::<
            bool,
            (int, int, int, int, Seq<u8>),
        >::Ok(true) {
            seq![cols[i]] + rest
        } else {
            rest
        }
    }
}

/// One column's error, as found by the scan.
struct ColErr {
    kind: u8,
    raise: usize,
    report: usize,
    side: Side,
    value: Vec<u8>,
}

impl ColErr {
    /// The spec tuple of this error.
    spec fn view_t(&self) -> (int, int, int, int, Seq<u8>) {
        (
            self.kind as int,
            self.raise as int,
            self.report as int,
            if self.side == Side::Old {
                0int
            } else {
                1int
            },
            self.value@,
        )
    }
}

fn field_at(rec: &Vec<Vec<u8>>, idx: usize) -> (r: Vec<u8>)
    ensures
        r@ == fld(views_of(rec@), idx as int),
{
    if idx < rec.len() {
        proof {
            assert(views_of(rec@)[idx as int] == rec@[idx as int]@);
        }
        crate::bytes::to_vec_bytes(rec[idx].as_slice())
    } else {
        Vec::new()
    }
}

/// Scan one column over all aligned rows.
#[verifier::rlimit(60)]
fn col_scan_exec(rows: &Vec<(RowRef, Vec<Vec<u8>>, Vec<Vec<u8>>)>, oi: usize, ni: usize) -> (r:
    Result<bool, ColErr>)
    ensures
        ({
            let rv = aligned_views(rows@);
            match r {
                Ok(saw) => spec_col_result(rv, oi as int, ni as int) == Result::<
                    bool,
                    (int, int, int, int, Seq<u8>),
                >::Ok(saw),
                Err(e) => spec_col_result(rv, oi as int, ni as int) == Result::<
                    bool,
                    (int, int, int, int, Seq<u8>),
                >::Err(e.view_t()) && e.raise < rows@.len() && e.report < rows@.len() && (e.kind == 0
                    || e.kind == 1),
            }
        }),
{
    let ghost rv = aligned_views(rows@);
    let n = rows.len();
    let mut saw = false;
    // the first recorded non-numeric, if any: (row, side, value)
    let mut rec_row: usize = 0;
    let mut rec_side: Side = Side::Old;
    let mut rec_val: Vec<u8> = Vec::new();
    let mut has_rec = false;
    let mut k: usize = 0;
    while k < n
        invariant
            0 <= k <= n,
            n == rows@.len(),
            rv == aligned_views(rows@),
            has_rec ==> rec_row < n,
            spec_col_result(rv, oi as int, ni as int) == spec_col_scan(
                rv,
                oi as int,
                ni as int,
                k as int,
                saw,
                if has_rec {
                    Some((rec_row as int, if rec_side == Side::Old { 0int } else { 1int }, rec_val@))
                } else {
                    None
                },
            ),
        decreases n - k,
    {
        proof {
            assert(rv[k as int] == (rr_view(rows@[k as int].0), views_of(rows@[k as int].1@),
            views_of(rows@[k as int].2@)));
        }
        let ov = field_at(&rows[k].1, oi);
        let nv = field_at(&rows[k].2, ni);
        let om = crate::missing::is_missing_token(ov.as_slice());
        let nm = crate::missing::is_missing_token(nv.as_slice());
        if om && nm {
            k = k + 1;
            continue ;
        }
        if om || nm {
            let (pv, pside, mside) = if om {
                (nv, Side::New, Side::Old)
            } else {
                (ov, Side::Old, Side::New)
            };
            if crate::numeric::is_numeric_token(pv.as_slice()) {
                return Err(ColErr { kind: 0, raise: k, report: k, side: mside, value: pv });
            }
            if saw {
                return Err(ColErr { kind: 1, raise: k, report: k, side: pside, value: pv });
            }
            if !has_rec {
                has_rec = true;
                rec_row = k;
                rec_side = pside;
                rec_val = pv;
            }
            k = k + 1;
            continue ;
        }
        let on = crate::numeric::is_numeric_token(ov.as_slice());
        let nn = crate::numeric::is_numeric_token(nv.as_slice());
        if on && nn {
            if has_rec {
                return Err(
                    ColErr { kind: 1, raise: k, report: rec_row, side: rec_side, value: rec_val },
                );
            }
            saw = true;
            k = k + 1;
            continue ;
        }
        if on || nn {
            let (nnv, nns) = if on {
                (nv, Side::New)
            } else {
                (ov, Side::Old)
            };
            if saw {
                return Err(ColErr { kind: 1, raise: k, report: k, side: nns, value: nnv });
            }
            if !has_rec {
                has_rec = true;
                rec_row = k;
                rec_side = nns;
                rec_val = nnv;
            }
            k = k + 1;
            continue ;
        }
        if saw {
            return Err(ColErr { kind: 1, raise: k, report: k, side: Side::Old, value: ov });
        }
        if !has_rec {
            has_rec = true;
            rec_row = k;
            rec_side = Side::Old;
            rec_val = ov;
        }
        k = k + 1;
    }
    Ok(saw)
}

/// Determine the numeric columns, or refuse with the error a row-major
/// sweep would raise first.
#[verifier::rlimit(80)]
pub fn detect_numeric_columns(
    columns: &Vec<CommonColumn>,
    rows: &Vec<(RowRef, Vec<Vec<u8>>, Vec<Vec<u8>>)>,
) -> (r: Result<Vec<CommonColumn>, ColumnTypingError>)
    ensures
        ({
            let cv = cc_views(columns@);
            let rv = aligned_views(rows@);
            match r {
                Ok(numeric) => {
                    &&& forall|i: int|
                        0 <= i < cv.len() ==> spec_col_result(
                            rv,
                            (#[trigger] cv[i]).1,
                            cv[i].2,
                        ) is Ok
                    &&& cc_views(numeric@) == spec_numeric_list(cv, rv, 0)
                },
                Err(e) => exists|ci: int|
                    0 <= ci < cv.len() && (spec_col_result(
                        rv,
                        (#[trigger] cv[ci]).1,
                        cv[ci].2,
                    ) matches Err(w) && {
                        &&& forall|cj: int|
                            0 <= cj < cv.len() ==> (spec_col_result(
                                rv,
                                (#[trigger] cv[cj]).1,
                                cv[cj].2,
                            ) matches Err(w2) ==> w.1 < w2.1 || (w.1 == w2.1 && ci <= cj))
                        &&& 0 <= w.2 < rv.len()
                        &&& match e {
                            ColumnTypingError::Missingness(d) => w.0 == 0 && rr_view(d.row)
                                == rv[w.2].0 && d.column@ == cv[ci].0 && ((d.missing_side
                                == Side::Old) <==> w.3 == 0) && d.present_value@ == w.4,
                            ColumnTypingError::MixedTypes(d) => w.0 == 1 && rr_view(d.row)
                                == rv[w.2].0 && d.column@ == cv[ci].0 && ((d.side == Side::Old)
                                <==> w.3 == 0) && d.value@ == w.4,
                        }
                    }),
            }
        }),
{
    let ghost cv = cc_views(columns@);
    let ghost rv = aligned_views(rows@);
    let n = columns.len();
    // scan every column; remember the earliest-raised error
    let mut best: Option<(usize, ColErr)> = None;
    let mut flags: Vec<bool> = Vec::new();
    let mut i: usize = 0;
    while i < n
        invariant
            0 <= i <= n,
            n == columns@.len(),
            cv == cc_views(columns@),
            rv == aligned_views(rows@),
            flags@.len() == i,
            forall|j: int|
                0 <= j < i ==> (spec_col_result(rv, (#[trigger] cv[j]).1, cv[j].2) is Ok
                    ==> spec_col_result(rv, cv[j].1, cv[j].2) == Result::<
                    bool,
                    (int, int, int, int, Seq<u8>),
                >::Ok(flags@[j])),
            match best {
                None => forall|j: int|
                    0 <= j < i ==> spec_col_result(rv, (#[trigger] cv[j]).1, cv[j].2) is Ok,
                Some((ci, ref w)) => {
                    &&& (ci as int) < i
                    &&& spec_col_result(rv, cv[ci as int].1, cv[ci as int].2) == Result::<
                        bool,
                        (int, int, int, int, Seq<u8>),
                    >::Err(w.view_t())
                    &&& w.raise < rv.len() && w.report < rv.len()
                    &&& (w.kind == 0 || w.kind == 1)
                    &&& forall|cj: int|
                        0 <= cj < i ==> (spec_col_result(
                            rv,
                            (#[trigger] cv[cj]).1,
                            cv[cj].2,
                        ) matches Err(w2) ==> (w.raise as int) < w2.1 || ((w.raise as int) == w2.1
                            && ci as int <= cj))
                },
            },
        decreases n - i,
    {
        proof {
            assert(cv[i as int] == cc_view(columns@[i as int]));
        }
        match col_scan_exec(rows, columns[i].old_index, columns[i].new_index) {
            Ok(f) => {
                flags.push(f);
            },
            Err(e) => {
                flags.push(false);
                let replace = match best {
                    None => true,
                    Some((_, ref w)) => e.raise < w.raise,
                };
                if replace {
                    best = Some((i, e));
                }
            },
        }
        i = i + 1;
    }
    match best {
        Some((ci, w)) => {
            let ghost wv = w.view_t();
            let ghost cig: int = ci as int;
            proof {
                assert(cv[cig] == cc_view(columns@[cig]));
                assert(spec_col_result(rv, cv[cig].1, cv[cig].2) == Result::<
                    bool,
                    (int, int, int, int, Seq<u8>),
                >::Err(wv));
                assert(rv[w.report as int] == (rr_view(rows@[w.report as int].0), views_of(
                    rows@[w.report as int].1@,
                ), views_of(rows@[w.report as int].2@)));
            }
            let row = RowRef {
                old_record: rows[w.report].0.old_record,
                new_record: rows[w.report].0.new_record,
                key: match rows[w.report].0.key {
                    Some(ref kv) => Some(crate::bytes::to_vec_bytes(kv.as_slice())),
                    None => None,
                },
            };
            let column = crate::bytes::to_vec_bytes(columns[ci].name.as_slice());
            proof {
                assert(rr_view(row) == rv[wv.2].0);
                assert(column@ == cv[cig].0);
            }
            if w.kind == 0 {
                let e = ColumnTypingError::Missingness(
                    MissingnessError {
                        row,
                        column,
                        missing_side: w.side,
                        present_value: w.value,
                    },
                );
                proof {
                    assert(e matches ColumnTypingError::Missingness(d) && wv.0 == 0 && rr_view(
                        d.row,
                    ) == rv[wv.2].0 && d.column@ == cv[cig].0 && ((d.missing_side == Side::Old)
                        <==> wv.3 == 0) && d.present_value@ == wv.4);
                }
                Err(e)
            } else {
                let e = ColumnTypingError::MixedTypes(
                    MixedTypesError { row, column, side: w.side, value: w.value },
                );
                proof {
                    assert(e matches ColumnTypingError::MixedTypes(d) && wv.0 == 1 && rr_view(
                        d.row,
                    ) == rv[wv.2].0 && d.column@ == cv[cig].0 && ((d.side == Side::Old) <==> wv.3
                        == 0) && d.value@ == wv.4);
                }
                Err(e)
            }
        },
        None => {
            let mut numeric: Vec<CommonColumn> = Vec::new();
            let mut t: usize = 0;
            proof {
                assert(cc_views(numeric@) =~= Seq::<(Seq<u8>, int, int)>::empty());
            }
            while t < n
                invariant
                    0 <= t <= n,
                    n == columns@.len(),
                    cv == cc_views(columns@),
                    rv == aligned_views(rows@),
                    flags@.len() == n,
                    forall|j: int|
                        0 <= j < n ==> (spec_col_result(rv, (#[trigger] cv[j]).1, cv[j].2) is Ok
                            ==> spec_col_result(rv, cv[j].1, cv[j].2) == Result::<
                            bool,
                            (int, int, int, int, Seq<u8>),
                        >::Ok(flags@[j])),
                    forall|j: int|
                        0 <= j < n ==> spec_col_result(rv, (#[trigger] cv[j]).1, cv[j].2) is Ok,
                    spec_numeric_list(cv, rv, 0) == cc_views(numeric@) + spec_numeric_list(
                        cv,
                        rv,
                        t as int,
                    ),
                decreases n - t,
            {
                proof {
                    assert(cv[t as int] == cc_view(columns@[t as int]));
                }
                if flags[t] {
                    let ghost pre = cc_views(numeric@);
                    numeric.push(
                        CommonColumn {
                            name: crate::bytes::to_vec_bytes(columns[t].name.as_slice()),
                            old_index: columns[t].old_index,
                            new_index: columns[t].new_index,
                        },
                    );
                    proof {
                        assert(cc_views(numeric@) =~= pre.push(cv[t as int]));
                        assert(pre.push(cv[t as int]) + spec_numeric_list(cv, rv, t + 1) =~= pre + (
                        seq![cv[t as int]] + spec_numeric_list(cv, rv, t + 1)));
                    }
                }
                t = t + 1;
            }
            proof {
                assert(cc_views(numeric@) + Seq::<(Seq<u8>, int, int)>::empty() =~= cc_views(
                    numeric@,
                ));
            }
            Ok(numeric)
        },
    }
}

} // verus!
