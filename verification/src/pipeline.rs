//! Pipeline orchestration: ingestion, alignment, the cell walk, and
//! output assembly.
//!
//! Floating-point arithmetic cannot be verified here, so the pipeline is
//! staged: `prepare` does everything up to the numeric cell list, the
//! caller evaluates each cell's delta (handing back IEEE bit patterns and
//! the tolerance outcome), `evaluate_cells` runs the accumulator and the
//! shuffle gate, the caller decides coverage, and `finish` renders.

use vstd::prelude::*;
use vstd::string::StringSliceAdditionalSpecFns;

use crate::bytes::{views_of, views_of_records};
use crate::codes::RefusalCode;
use crate::columns::{cc_views, CommonColumn};
use crate::details::{
    DelimiterHint, DialectSuggestion, EncodingIssue, FileSide, HeadersIssue, NamedDelimiter,
    RefusalDetail, RefusalKind, RerunPaths,
};
use crate::dialect::DialectError;
use crate::exit::Outcome;
use crate::heap::{Contributor, DiffAccumulator, MAX_CONTRIBUTORS};
use crate::numeric::{spec_canonical, spec_is_numeric};
use crate::order::{CellId, RowId};
use crate::parser::EscapeMode;

verus! {

/// One parsed input side.
pub struct ParsedCsv {
    pub delimiter: u8,
    pub escape: EscapeMode,
    pub headers: Vec<Vec<u8>>,
    pub records: Vec<Vec<Vec<u8>>>,
}

/// The outcome of one run: its exit classification and output bytes.
pub struct PipelineResult {
    pub outcome: Outcome,
    pub output: Vec<u8>,
}

/// Lines joined with a line feed, no trailing newline.
pub open spec fn spec_join_lines(ls: Seq<Seq<u8>>) -> Seq<u8>
    decreases ls.len(),
{
    if ls.len() == 0 {
        Seq::<u8>::empty()
    } else if ls.len() == 1 {
        ls[0]
    } else {
        spec_join_lines(ls.drop_last()) + seq![0x0Au8] + ls[ls.len() - 1]
    }
}

/// Join output lines with line feeds.
pub fn join_lines(ls: &Vec<Vec<u8>>) -> (r: Vec<u8>)
    ensures
        r@ == spec_join_lines(views_of(ls@)),
{
    let n = ls.len();
    let mut out: Vec<u8> = Vec::new();
    let mut i: usize = 0;
    proof {
        assert(views_of(ls@).take(0) =~= Seq::<Seq<u8>>::empty());
        assert(out@ =~= spec_join_lines(views_of(ls@).take(0)));
    }
    while i < n
        invariant
            0 <= i <= n,
            n == ls@.len(),
            out@ == spec_join_lines(views_of(ls@).take(i as int)),
        decreases n - i,
    {
        proof {
            assert(views_of(ls@)[i as int] == ls@[i as int]@);
        }
        if i > 0 {
            out.push(0x0A);
        }
        crate::bytes::push_all(&mut out, ls[i].as_slice());
        proof {
            let sv = views_of(ls@);
            let t = sv.take(i + 1);
            assert(t.drop_last() =~= sv.take(i as int));
            assert(t[t.len() - 1] == sv[i as int]);
            if i == 0 {
                assert(out@ =~= spec_join_lines(t));
            } else {
                assert(out@ =~= spec_join_lines(sv.take(i as int)) + seq![0x0Au8] + sv[i as int]);
            }
        }
        i = i + 1;
    }
    proof {
        assert(views_of(ls@).take(n as int) =~= views_of(ls@));
    }
    out
}

/// The numeric cell list: for each aligned row (outer) and numeric column
/// (inner), the canonical texts of both sides — both-missing pairs and
/// pairs that do not both parse are skipped.
pub open spec fn spec_row_cells(
    of: Seq<Seq<u8>>,
    nf: Seq<Seq<u8>>,
    cols: Seq<(Seq<u8>, int, int)>,
    j: int,
) -> Seq<(int, Seq<u8>, Seq<u8>)>
    decreases cols.len() - j,
{
    if j < 0 || j >= cols.len() {
        Seq::empty()
    } else {
        let rest = spec_row_cells(of, nf, cols, j + 1);
        let ov = crate::columns::fld(of, cols[j].1);
        let nv = crate::columns::fld(nf, cols[j].2);
        if crate::missing::spec_is_missing_token(ov) && crate::missing::spec_is_missing_token(nv) {
            rest
        } else if spec_is_numeric(ov) && spec_is_numeric(nv) {
            seq![(j, spec_canonical(ov), spec_canonical(nv))] + rest
        } else {
            rest
        }
    }
}

/// All cells of all rows, row-major.
pub open spec fn spec_all_cells(
    rows: Seq<(Seq<Seq<u8>>, Seq<Seq<u8>>)>,
    cols: Seq<(Seq<u8>, int, int)>,
    r: int,
) -> Seq<(int, int, Seq<u8>, Seq<u8>)>
    decreases rows.len() - r,
{
    if r < 0 || r >= rows.len() {
        Seq::empty()
    } else {
        spec_row_cells(rows[r].0, rows[r].1, cols, 0).map_values(
            |c: (int, Seq<u8>, Seq<u8>)| (r, c.0, c.1, c.2),
        ) + spec_all_cells(rows, cols, r + 1)
    }
}

/// One numeric cell ready for evaluation.
pub struct CellEntry {
    pub id: CellId,
    pub old_canon: Vec<u8>,
    pub new_canon: Vec<u8>,
}

/// The field views of the aligned row list used by the cell walk.
pub open spec fn diff_rows_views(s: Seq<(RowId, Vec<Vec<u8>>, Vec<Vec<u8>>)>) -> Seq<
    (Seq<Seq<u8>>, Seq<Seq<u8>>),
> {
    s.map_values(|t: (RowId, Vec<Vec<u8>>, Vec<Vec<u8>>)| (views_of(t.1@), views_of(t.2@)))
}

/// Walk rows and numeric columns, collecting the canonical numeric cell
/// texts in visitation order.
#[verifier::rlimit(100)]
#[verifier::spinoff_prover]
pub fn build_cells(rows: &Vec<(RowId, Vec<Vec<u8>>, Vec<Vec<u8>>)>, cols: &Vec<CommonColumn>) -> (r:
    Vec<CellEntry>)
    ensures
        ({
            let rv = diff_rows_views(rows@);
            let cv = cc_views(cols@);
            let sc = spec_all_cells(rv, cv, 0);
            &&& r@.len() == sc.len()
            &&& forall|t: int|
                0 <= t < r@.len() ==> {
                    let (ri, cj, oc, nc) = #[trigger] sc[t];
                    &&& crate::order::rid_eq(r@[t].id.row_id, rows@[ri].0)
                    &&& r@[t].id.column@ == cv[cj].0
                    &&& r@[t].old_canon@ == oc
                    &&& r@[t].new_canon@ == nc
                }
        }),
{
    let ghost rv = diff_rows_views(rows@);
    let ghost cv = cc_views(cols@);
    let ghost sc = spec_all_cells(rv, cv, 0);
    let n = rows.len();
    let m = cols.len();
    let mut out: Vec<CellEntry> = Vec::new();
    let mut ri: usize = 0;
    while ri < n
        invariant
            0 <= ri <= n,
            n == rows@.len(),
            m == cols@.len(),
            rv == diff_rows_views(rows@),
            cv == cc_views(cols@),
            sc == spec_all_cells(rv, cv, 0),
            out@.len() <= sc.len(),
            sc =~= sc.take(out@.len() as int) + spec_all_cells(rv, cv, ri as int),
            forall|t: int|
                0 <= t < out@.len() ==> {
                    let (r2, c2, oc, nc) = #[trigger] sc[t];
                    &&& crate::order::rid_eq(out@[t].id.row_id, rows@[r2].0)
                    &&& out@[t].id.column@ == cv[c2].0
                    &&& out@[t].old_canon@ == oc
                    &&& out@[t].new_canon@ == nc
                },
        decreases n - ri,
    {
        proof {
            assert(rv[ri as int] == (views_of(rows@[ri as int].1@), views_of(rows@[ri as int].2@)));
        }
        let mut cj: usize = 0;
        while cj < m
            invariant
                0 <= cj <= m,
                0 <= ri < n,
                n == rows@.len(),
                m == cols@.len(),
                rv == diff_rows_views(rows@),
                cv == cc_views(cols@),
                sc == spec_all_cells(rv, cv, 0),
                rv[ri as int] == (views_of(rows@[ri as int].1@), views_of(rows@[ri as int].2@)),
                out@.len() <= sc.len(),
                sc =~= sc.take(out@.len() as int) + spec_row_cells(
                    rv[ri as int].0,
                    rv[ri as int].1,
                    cv,
                    cj as int,
                ).map_values(|c: (int, Seq<u8>, Seq<u8>)| (ri as int, c.0, c.1, c.2))
                    + spec_all_cells(rv, cv, ri + 1),
                forall|t: int|
                    0 <= t < out@.len() ==> {
                        let (r2, c2, oc, nc) = #[trigger] sc[t];
                        &&& crate::order::rid_eq(out@[t].id.row_id, rows@[r2].0)
                        &&& out@[t].id.column@ == cv[c2].0
                        &&& out@[t].old_canon@ == oc
                        &&& out@[t].new_canon@ == nc
                    },
            decreases m - cj,
        {
            proof {
                assert(cv[cj as int] == crate::columns::cc_view(cols@[cj as int]));
            }
            let ov = field_of(&rows[ri].1, cols[cj].old_index);
            let nv = field_of(&rows[ri].2, cols[cj].new_index);
            let om = crate::missing::is_missing_token(ov.as_slice());
            let nm = crate::missing::is_missing_token(nv.as_slice());
            let ghost pre_len = out@.len() as int;
            if !(om && nm) {
                let oc = crate::numeric::canonical_numeric(ov.as_slice());
                let nc = crate::numeric::canonical_numeric(nv.as_slice());
                match (oc, nc) {
                    (Some(ocv), Some(ncv)) => {
                        let id = CellId {
                            row_id: clone_rid(&rows[ri].0),
                            column: crate::bytes::to_vec_bytes(cols[cj].name.as_slice()),
                        };
                        out.push(CellEntry { id, old_canon: ocv, new_canon: ncv });
                        proof {
                            let rc = spec_row_cells(rv[ri as int].0, rv[ri as int].1, cv, cj as int);
                            let rc2 = spec_row_cells(rv[ri as int].0, rv[ri as int].1, cv, cj + 1);
                            assert(rc =~= seq![
                                (cj as int, spec_canonical(ov@), spec_canonical(nv@)),
                            ] + rc2);
                            assert(sc[pre_len] == (ri as int, cj as int, spec_canonical(ov@),
                            spec_canonical(nv@)));
                            assert(sc =~= sc.take(pre_len + 1) + rc2.map_values(
                                |c: (int, Seq<u8>, Seq<u8>)| (ri as int, c.0, c.1, c.2),
                            ) + spec_all_cells(rv, cv, ri + 1));
                        }
                    },
                    _ => {
                        proof {
                            let rc = spec_row_cells(rv[ri as int].0, rv[ri as int].1, cv, cj as int);
                            let rc2 = spec_row_cells(rv[ri as int].0, rv[ri as int].1, cv, cj + 1);
                            assert(rc =~= rc2);
                        }
                    },
                }
            } else {
                proof {
                    let rc = spec_row_cells(rv[ri as int].0, rv[ri as int].1, cv, cj as int);
                    let rc2 = spec_row_cells(rv[ri as int].0, rv[ri as int].1, cv, cj + 1);
                    assert(rc =~= rc2);
                }
            }
            cj = cj + 1;
        }
        proof {
            assert(spec_row_cells(rv[ri as int].0, rv[ri as int].1, cv, m as int)
                =~= Seq::<(int, Seq<u8>, Seq<u8>)>::empty());
        }
        ri = ri + 1;
    }
    proof {
        assert(spec_all_cells(rv, cv, n as int) =~= Seq::<(int, int, Seq<u8>, Seq<u8>)>::empty());
        assert(sc.take(out@.len() as int) =~= sc);
    }
    out
}

/// Read one field, empty when out of range.
fn field_of(rec: &Vec<Vec<u8>>, idx: usize) -> (r: Vec<u8>)
    ensures
        r@ == crate::columns::fld(views_of(rec@), idx as int),
{
    if idx < rec.len() {
        proof {
            assert(views_of(rec@)[idx as int] == rec@[idx as int]@);
        }
        crate::bytes::to_vec_bytes(rec[idx].as_slice())
    } else {
        Vec::new()
    }
}

/// Copy a row identity.
pub fn clone_rid(r: &RowId) -> (out: RowId)
    ensures
        crate::order::rid_eq(out, *r),
{
    match r {
        RowId::RowIndex(i) => RowId::RowIndex(*i),
        RowId::Key(k) => RowId::Key(crate::bytes::to_vec_bytes(k.as_slice())),
    }
}

/// One evaluated cell handed back by the caller: the delta and absolute
/// delta as IEEE bit patterns, and whether it exceeds the tolerance.
#[derive(Debug, Clone, Copy, PartialEq, Eq, Structural)]
pub struct CellValue {
    pub delta_bits: u64,
    pub abs_bits: u64,
    pub exceeds: bool,
}

/// The accumulator's outcome over the evaluated cells.
pub struct DiffOutcome {
    pub max_abs_bits: u64,
    pub changed: u64,
    pub top: Vec<Contributor>,
}

/// The exceeding contributors of the evaluated cells, in visitation
/// order, with the visitation index as the tie-break counter.
pub open spec fn spec_exceeders(
    cells: Seq<CellEntry>,
    values: Seq<CellValue>,
    t: int,
) -> Seq<(u64, u64)>
    decreases cells.len() - t,
{
    if t < 0 || t >= cells.len() || t >= values.len() {
        Seq::empty()
    } else {
        let rest = spec_exceeders(cells, values, t + 1);
        if values[t].exceeds {
            seq![(values[t].abs_bits, t as u64)] + rest
        } else {
            rest
        }
    }
}

/// The largest absolute delta over the evaluated cells (as bits).
pub open spec fn spec_max_abs(values: Seq<CellValue>, t: int) -> u64
    decreases values.len() - t,
{
    if t < 0 || t >= values.len() {
        0
    } else {
        let rest = spec_max_abs(values, t + 1);
        if values[t].abs_bits > rest {
            values[t].abs_bits
        } else {
            rest
        }
    }
}

/// Run the accumulator over the evaluated cells: track the largest
/// absolute delta, count the cells above tolerance, retain the top
/// contributors, and sort them by contribution descending with the cell
/// order breaking ties.
///
/// While at most the cap's worth of cells exceed the tolerance, every
/// exceeding cell is retained; retained entries always come from
/// exceeding cells, carrying the visitation index as the tie-break.
#[verifier::rlimit(100)]
#[verifier::spinoff_prover]
pub fn evaluate_cells(cells: &Vec<CellEntry>, values: &Vec<CellValue>) -> (r: DiffOutcome)
    requires
        cells@.len() == values@.len(),
        cells@.len() < u64::MAX,
    ensures
        r.max_abs_bits == spec_max_abs(values@, 0),
        r.changed as int == spec_exceeders(cells@, values@, 0).len(),
        r.top@.len() <= MAX_CONTRIBUTORS as int,
        r.top@.len() == (if r.changed <= MAX_CONTRIBUTORS as u64 {
            r.changed as int
        } else {
            MAX_CONTRIBUTORS as int
        }),
        forall|i: int, j: int|
            0 <= i < j < r.top@.len() ==> crate::heap::contrib_order_le(
                #[trigger] r.top@[i],
                #[trigger] r.top@[j],
            ),
        (r.changed > 0) == (spec_exceeders(cells@, values@, 0).len() > 0),
        r.changed <= MAX_CONTRIBUTORS as u64 ==> forall|t: int|
            0 <= t < values@.len() && (#[trigger] values@[t]).exceeds ==> exists|i: int|
                0 <= i < r.top@.len() && (#[trigger] r.top@[i]).tie_break == t as u64
                    && r.top@[i].contribution_bits == values@[t].abs_bits,
        r.changed <= MAX_CONTRIBUTORS as u64 ==> forall|i: int|
            0 <= i < r.top@.len() ==> exists|t: int|
                0 <= t < values@.len() && values@[t].exceeds && (#[trigger] r.top@[i]).tie_break
                    == t as u64 && r.top@[i].contribution_bits == values@[t].abs_bits,
        forall|i: int|
            0 <= i < r.top@.len() ==> {
                let c = #[trigger] r.top@[i];
                &&& (c.tie_break as int) < values@.len()
                &&& values@[c.tie_break as int].exceeds
                &&& c.contribution_bits == values@[c.tie_break as int].abs_bits
            },
{
    proof {
        broadcast use vstd::seq_lib::group_to_multiset_ensures;

    }
    let n = cells.len();
    let mut acc = DiffAccumulator::with_default_max();
    let mut t: usize = 0;
    while t < n
        invariant
            0 <= t <= n,
            n == cells@.len() && n == values@.len(),
            n < u64::MAX,
            acc.changed <= t as u64,
            acc.top.spec_max() == MAX_CONTRIBUTORS as int,
            spec_max_abs(values@, 0) == (if acc.max_abs_bits > spec_max_abs(values@, t as int) {
                acc.max_abs_bits
            } else {
                spec_max_abs(values@, t as int)
            }),
            acc.changed as int + spec_exceeders(cells@, values@, t as int).len() == spec_exceeders(
                cells@,
                values@,
                0,
            ).len(),
            acc.top.items_view().len() == (if acc.changed <= MAX_CONTRIBUTORS as u64 {
                acc.changed as int
            } else {
                MAX_CONTRIBUTORS as int
            }),
            acc.changed <= MAX_CONTRIBUTORS as u64 ==> forall|t2: int|
                0 <= t2 < t && (#[trigger] values@[t2]).exceeds ==> exists|i: int|
                    0 <= i < acc.top.items_view().len() && (#[trigger] acc.top.items_view()[i]).tie_break
                        == t2 as u64 && acc.top.items_view()[i].contribution_bits
                        == values@[t2].abs_bits,
            acc.changed <= MAX_CONTRIBUTORS as u64 ==> forall|i: int|
                0 <= i < acc.top.items_view().len() ==> exists|t2: int|
                    0 <= t2 < t && values@[t2].exceeds && (#[trigger] acc.top.items_view()[i]).tie_break
                        == t2 as u64 && acc.top.items_view()[i].contribution_bits
                        == values@[t2].abs_bits,
            forall|i: int|
                0 <= i < acc.top.items_view().len() ==> {
                    let c = #[trigger] acc.top.items_view()[i];
                    &&& (c.tie_break as int) < t as int
                    &&& values@[c.tie_break as int].exceeds
                    &&& c.contribution_bits == values@[c.tie_break as int].abs_bits
                },
        decreases n - t,
    {
        proof {
            broadcast use vstd::seq_lib::group_to_multiset_ensures;

        }
        let v = values[t];
        let id = CellId {
            row_id: clone_rid(&cells[t].id.row_id),
            column: crate::bytes::to_vec_bytes(cells[t].id.column.as_slice()),
        };
        let ghost pre_items = acc.top.items_view();
        let ghost c_ghost = Contributor {
            id: id,
            delta_bits: v.delta_bits,
            contribution_bits: v.abs_bits,
            tie_break: t as u64,
        };
        acc.observe(id, v.delta_bits, v.abs_bits, v.exceeds, t as u64);
        proof {
            let ex_t = spec_exceeders(cells@, values@, t as int);
            let ex_t1 = spec_exceeders(cells@, values@, t + 1);
            if v.exceeds {
                assert(ex_t =~= seq![(v.abs_bits, t as u64)] + ex_t1);
            } else {
                assert(ex_t =~= ex_t1);
            }
            let post = acc.top.items_view();
            assert forall|i: int| 0 <= i < post.len() implies {
                let c = #[trigger] post[i];
                &&& (c.tie_break as int) < t as int + 1
                &&& values@[c.tie_break as int].exceeds
                &&& c.contribution_bits == values@[c.tie_break as int].abs_bits
            } by {
                let x = post[i];
                assert(post.contains(x));
                assert(post.to_multiset().count(x) > 0);
                if v.exceeds && x == c_ghost {
                    assert(x.tie_break == t as u64);
                    assert(values@[t as int].exceeds);
                } else {
                    if v.exceeds {
                        assert(pre_items.to_multiset().count(x) > 0);
                    } else {
                        assert(post == pre_items);
                        assert(pre_items.to_multiset().count(x) > 0);
                    }
                    assert(pre_items.contains(x));
                    let w = choose|w: int| 0 <= w < pre_items.len() && pre_items[w] == x;
                    assert((pre_items[w].tie_break as int) < t as int);
                }
            }
            if v.exceeds {
                // anything stored before is still stored, and so is the
                // newcomer unless the store was already full
                if pre_items.len() < MAX_CONTRIBUTORS as int {
                    assert(post.to_multiset() == pre_items.to_multiset().insert(c_ghost));
                    if acc.changed <= MAX_CONTRIBUTORS as u64 {
                        assert forall|i: int|
                            0 <= i < post.len() implies exists|t2: int|
                            0 <= t2 < t + 1 && values@[t2].exceeds && (#[trigger] post[i]).tie_break
                                == t2 as u64 && post[i].contribution_bits == values@[t2].abs_bits by {
                            let x = post[i];
                            assert(post.contains(x));
                            assert(post.to_multiset().count(x) > 0);
                            if x == c_ghost {
                                assert(x.tie_break == t as u64 && x.contribution_bits == v.abs_bits);
                            } else {
                                assert(pre_items.to_multiset().count(x) > 0);
                                assert(pre_items.contains(x));
                                let w = choose|w: int| 0 <= w < pre_items.len() && pre_items[w] == x;
                            }
                        }
                    }
                    if acc.changed <= MAX_CONTRIBUTORS as u64 {
                        assert forall|t2: int|
                            0 <= t2 < t + 1 && (#[trigger] values@[t2]).exceeds implies exists|
                            i: int,
                        |
                            0 <= i < post.len() && (#[trigger] post[i]).tie_break == t2 as u64
                                && post[i].contribution_bits == values@[t2].abs_bits by {
                            if t2 == t {
                                assert(post.to_multiset().count(c_ghost) > 0);
                                assert(post.contains(c_ghost));
                                let w = choose|w: int| 0 <= w < post.len() && post[w] == c_ghost;
                            } else {
                                let i0 = choose|i0: int|
                                    0 <= i0 < pre_items.len() && (#[trigger] pre_items[i0]).tie_break
                                        == t2 as u64 && pre_items[i0].contribution_bits
                                        == values@[t2].abs_bits;
                                let x = pre_items[i0];
                                assert(pre_items.contains(x));
                                assert(pre_items.to_multiset().count(x) > 0);
                                assert(post.to_multiset().count(x) > 0);
                                assert(post.contains(x));
                                let w = choose|w: int| 0 <= w < post.len() && post[w] == x;
                            }
                        }
                    }
                } else {
                    // the store was full, so more than the cap have
                    // exceeded and the retention claim no longer applies
                    assert(acc.changed > MAX_CONTRIBUTORS as u64);
                }
            }
        }
        t = t + 1;
    }
    proof {
        assert(spec_exceeders(cells@, values@, n as int) =~= Seq::<(u64, u64)>::empty());
        assert(spec_max_abs(values@, n as int) == 0);
    }
    let changed = acc.changed;
    let max_abs_bits = acc.max_abs_bits;
    let ghost pre_sort = acc.top.items_view();
    let sorted = crate::heap::sort_contributors(acc.top.into_vec());
    proof {
        broadcast use vstd::seq_lib::group_to_multiset_ensures;

        // sorting permutes: membership carries over in both directions
        assert forall|i: int| 0 <= i < sorted@.len() implies {
            let c = #[trigger] sorted@[i];
            &&& (c.tie_break as int) < values@.len()
            &&& values@[c.tie_break as int].exceeds
            &&& c.contribution_bits == values@[c.tie_break as int].abs_bits
        } by {
            let x = sorted@[i];
            assert(sorted@.contains(x));
            assert(sorted@.to_multiset().count(x) > 0);
            assert(pre_sort.to_multiset().count(x) > 0);
            assert(pre_sort.contains(x));
            let w = choose|w: int| 0 <= w < pre_sort.len() && pre_sort[w] == x;
            assert((pre_sort[w].tie_break as int) < values@.len());
        }
        if changed <= MAX_CONTRIBUTORS as u64 {
            assert forall|i: int|
                0 <= i < sorted@.len() implies exists|t2: int|
                0 <= t2 < values@.len() && values@[t2].exceeds && (#[trigger] sorted@[i]).tie_break
                    == t2 as u64 && sorted@[i].contribution_bits == values@[t2].abs_bits by {
                let x = sorted@[i];
                assert(sorted@.contains(x));
                assert(sorted@.to_multiset().count(x) > 0);
                assert(pre_sort.to_multiset().count(x) > 0);
                assert(pre_sort.contains(x));
                let w = choose|w: int| 0 <= w < pre_sort.len() && pre_sort[w] == x;
            }
        }
        if changed <= MAX_CONTRIBUTORS as u64 {
            assert forall|t2: int|
                0 <= t2 < values@.len() && (#[trigger] values@[t2]).exceeds implies exists|i: int|
                0 <= i < sorted@.len() && (#[trigger] sorted@[i]).tie_break == t2 as u64
                    && sorted@[i].contribution_bits == values@[t2].abs_bits by {
                let i0 = choose|i0: int|
                    0 <= i0 < pre_sort.len() && (#[trigger] pre_sort[i0]).tie_break == t2 as u64
                        && pre_sort[i0].contribution_bits == values@[t2].abs_bits;
                let x = pre_sort[i0];
                assert(pre_sort.contains(x));
                assert(pre_sort.to_multiset().count(x) > 0);
                assert(sorted@.to_multiset().count(x) > 0);
                assert(sorted@.contains(x));
                let w = choose|w: int| 0 <= w < sorted@.len() && sorted@[w] == x;
            }
        }
    }
    DiffOutcome { max_abs_bits, changed, top: sorted }
}


/// With identical sides, every numeric cell's canonical texts agree: a
/// file compared against itself can only differ by nothing.
pub proof fn lemma_identical_rows_equal_cells(
    rows: Seq<(Seq<Seq<u8>>, Seq<Seq<u8>>)>,
    cols: Seq<(Seq<u8>, int, int)>,
    r: int,
)
    requires
        forall|i: int| 0 <= i < rows.len() ==> (#[trigger] rows[i]).0 == rows[i].1,
        forall|j: int| 0 <= j < cols.len() ==> (#[trigger] cols[j]).1 == cols[j].2,
    ensures
        forall|t: int|
            0 <= t < spec_all_cells(rows, cols, r).len() ==> (#[trigger] spec_all_cells(
                rows,
                cols,
                r,
            )[t]).2 == spec_all_cells(rows, cols, r)[t].3,
    decreases rows.len() - r,
{
    if 0 <= r < rows.len() {
        lemma_identical_row_cells(rows[r].0, rows[r].1, cols, 0);
        lemma_identical_rows_equal_cells(rows, cols, r + 1);
        let head = spec_row_cells(rows[r].0, rows[r].1, cols, 0).map_values(
            |c: (int, Seq<u8>, Seq<u8>)| (r, c.0, c.1, c.2),
        );
        assert forall|t: int|
            0 <= t < spec_all_cells(rows, cols, r).len() implies (#[trigger] spec_all_cells(
            rows,
            cols,
            r,
        )[t]).2 == spec_all_cells(rows, cols, r)[t].3 by {
            if t < head.len() {
                assert(spec_all_cells(rows, cols, r)[t] == head[t]);
            } else {
                assert(spec_all_cells(rows, cols, r)[t] == spec_all_cells(rows, cols, r + 1)[t
                    - head.len()]);
            }
        }
    }
}

proof fn lemma_identical_row_cells(
    of: Seq<Seq<u8>>,
    nf: Seq<Seq<u8>>,
    cols: Seq<(Seq<u8>, int, int)>,
    j: int,
)
    requires
        of == nf,
        forall|j2: int| 0 <= j2 < cols.len() ==> (#[trigger] cols[j2]).1 == cols[j2].2,
    ensures
        forall|t: int|
            0 <= t < spec_row_cells(of, nf, cols, j).len() ==> (#[trigger] spec_row_cells(
                of,
                nf,
                cols,
                j,
            )[t]).1 == spec_row_cells(of, nf, cols, j)[t].2,
    decreases cols.len() - j,
{
    if 0 <= j < cols.len() {
        lemma_identical_row_cells(of, nf, cols, j + 1);
        assert(crate::columns::fld(of, cols[j].1) == crate::columns::fld(nf, cols[j].2));
        let rc = spec_row_cells(of, nf, cols, j);
        let rest = spec_row_cells(of, nf, cols, j + 1);
        assert forall|t: int| 0 <= t < rc.len() implies (#[trigger] rc[t]).1 == rc[t].2 by {
            if rc.len() == rest.len() {
                assert(rc[t] == rest[t]);
            } else {
                if t > 0 {
                    assert(rc[t] == rest[t - 1]);
                }
            }
        }
    }
}


/// Index of the first non-blank line, or -1.
pub open spec fn spec_first_non_blank(lines: Seq<Seq<u8>>) -> int
    decreases lines.len(),
{
    if lines.len() == 0 {
        -1
    } else if !crate::blank::spec_is_blank_line(lines[0]) {
        0
    } else {
        let r = spec_first_non_blank(lines.drop_first());
        if r < 0 {
            -1
        } else {
            1 + r
        }
    }
}

pub proof fn lemma_first_non_blank_at(lines: Seq<Seq<u8>>, i: int)
    requires
        0 <= i <= lines.len(),
        forall|j: int| 0 <= j < i ==> crate::blank::spec_is_blank_line(#[trigger] lines[j]),
        i == lines.len() || !crate::blank::spec_is_blank_line(lines[i]),
    ensures
        i < lines.len() ==> spec_first_non_blank(lines) == i,
        i == lines.len() ==> spec_first_non_blank(lines) < 0,
    decreases i,
{
    if lines.len() == 0 {
    } else if i == 0 {
    } else {
        assert(crate::blank::spec_is_blank_line(lines[0]));
        assert forall|j: int|
            0 <= j < i - 1 implies crate::blank::spec_is_blank_line(
            #[trigger] lines.drop_first()[j],
        ) by {
            assert(lines.drop_first()[j] == lines[j + 1]);
        }
        if i < lines.len() {
            assert(lines.drop_first()[i - 1] == lines[i]);
        }
        lemma_first_non_blank_at(lines.drop_first(), i - 1);
    }
}

/// The `sep=` delimiter of the first non-blank line, if any.
pub open spec fn spec_sep_delim(g: Seq<u8>) -> Option<u8> {
    let lines = crate::blank::spec_split_lines(g);
    let i = spec_first_non_blank(lines);
    if 0 <= i < lines.len() {
        crate::sep::spec_sep_directive(crate::blank::spec_strip_cr(lines[i]))
    } else {
        None
    }
}

/// The escape mode that the quote rule settles on: RFC when it passes,
/// else backslash when that passes, else none.
pub open spec fn spec_escape_choice(g: Seq<u8>, d: u8) -> Option<bool> {
    if crate::parser::spec_quotes_valid(g, d, false) {
        Some(false)
    } else if crate::parser::spec_quotes_valid(g, d, true) {
        Some(true)
    } else {
        None
    }
}

/// The first position that repeats an earlier name, scanning from `j`;
/// the length when no repeat exists.
pub open spec fn spec_first_dup_index(names: Seq<Seq<u8>>, j: int) -> int
    decreases names.len() - j,
{
    if j < 0 || j >= names.len() {
        names.len() as int
    } else if exists|i: int| 0 <= i < j && names[i] == names[j] {
        j
    } else {
        spec_first_dup_index(names, j + 1)
    }
}

pub proof fn lemma_first_dup_at(names: Seq<Seq<u8>>, k: int, j: int)
    requires
        0 <= j <= k < names.len(),
        crate::headers::spec_names_unique(names.take(k)),
        exists|i: int| 0 <= i < k && names[i] == names[k],
    ensures
        spec_first_dup_index(names, j) == k,
    decreases k - j,
{
    if j < k {
        assert(!exists|i: int| 0 <= i < j && names[i] == names[j]) by {
            if exists|i: int| 0 <= i < j && names[i] == names[j] {
                let i = choose|i: int| 0 <= i < j && names[i] == names[j];
                assert(names.take(k)[i] == names.take(k)[j]);
                assert(false);
            }
        }
        lemma_first_dup_at(names, k, j + 1);
    }
}

/// A record fits the header width when every extra field is blank.
pub open spec fn spec_row_fits(rec: Seq<Seq<u8>>, w: int) -> bool {
    forall|i: int| w <= i < rec.len() ==> crate::trim::spec_is_blank_seq(#[trigger] rec[i])
}

/// A record padded or cut to the header width.
pub open spec fn spec_norm_row(rec: Seq<Seq<u8>>, w: nat) -> Seq<Seq<u8>> {
    Seq::new(w, |f: int| crate::records::spec_norm_field(rec, w, f))
}

/// The verdict of shaping one side's records under a settled dialect.
pub enum SideShape {
    MissingHeader,
    DuplicateName { name: Seq<u8> },
    ExtraFields { record: u64 },
    Shaped { headers: Seq<Seq<u8>>, records: Seq<Seq<Seq<u8>>> },
}

/// The data phase of the walk: blank records dropped, the rest numbered
/// and width-normalized; a non-blank extra field stops it.
pub open spec fn spec_shape_data(
    recs: Seq<Seq<Seq<u8>>>,
    headers: Seq<Seq<u8>>,
    idx: u64,
    acc: Seq<Seq<Seq<u8>>>,
) -> SideShape
    decreases recs.len(),
{
    if recs.len() == 0 {
        SideShape::Shaped { headers, records: acc }
    } else if crate::blank::spec_is_blank_record(recs[0]) {
        spec_shape_data(recs.drop_first(), headers, idx, acc)
    } else {
        let ni: u64 = if idx < u64::MAX {
            (idx + 1) as u64
        } else {
            idx
        };
        if spec_row_fits(recs[0], headers.len() as int) {
            spec_shape_data(
                recs.drop_first(),
                headers,
                ni,
                acc.push(spec_norm_row(recs[0], headers.len())),
            )
        } else {
            SideShape::ExtraFields { record: ni }
        }
    }
}

/// The whole walk: pre-header blank single-field records skipped, the
/// `sep=` line skipped when present, the header normalized and checked
/// for duplicates, then the data phase.
pub open spec fn spec_shape_side(recs: Seq<Seq<Seq<u8>>>, skip_sep: bool) -> SideShape
    decreases recs.len(),
{
    if recs.len() == 0 {
        SideShape::MissingHeader
    } else if crate::blank::spec_is_blank_record(recs[0]) && recs[0].len() == 1 {
        spec_shape_side(recs.drop_first(), skip_sep)
    } else if skip_sep {
        spec_shape_side(recs.drop_first(), false)
    } else {
        let names = crate::headers::spec_normalized_names(recs[0]);
        if crate::headers::spec_names_unique(names) {
            spec_shape_data(recs.drop_first(), names, 0, Seq::empty())
        } else {
            SideShape::DuplicateName { name: names[spec_first_dup_index(names, 0)] }
        }
    }
}

/// How the shape verdict pins the parse result, given the dialect.
pub open spec fn spec_shaped_outcome(
    g: Seq<u8>,
    d: u8,
    bs: bool,
    skip_sep: bool,
    file: FileSide,
    paths: RerunPaths,
    r: Result<ParsedCsv, (RefusalCode, RefusalDetail)>,
) -> bool {
    match spec_shape_side(crate::parser::spec_csv_records(g, d, bs), skip_sep) {
        SideShape::MissingHeader => r matches Err((c, det)) && c == RefusalCode::Headers && (
        det.kind matches RefusalKind::Headers { file: f2, issue: HeadersIssue::MissingHeader } && f2
            == file) && det.next@ == crate::details::spec_default_next(det.kind, paths),
        SideShape::DuplicateName { name } => r matches Err((c, det)) && c == RefusalCode::Headers
            && (det.kind matches RefusalKind::Headers {
            file: f2,
            issue: HeadersIssue::Duplicate { name: n2 },
        } && f2 == file && n2@ == name) && det.next@ == crate::details::spec_default_next(
            det.kind,
            paths,
        ),
        SideShape::ExtraFields { record } => r matches Err((c, det)) && c == RefusalCode::Headers
            && (det.kind matches RefusalKind::Headers {
            file: f2,
            issue: HeadersIssue::ExtraFields { record: rec2 },
        } && f2 == file && rec2 == record) && det.next@ == crate::details::spec_default_next(
            det.kind,
            paths,
        ),
        SideShape::Shaped { headers, records } => r matches Ok(p) && views_of(p.headers@)
            == headers && views_of_records(p.records@) == records && p.delimiter == d && ((p.escape
            == EscapeMode::Backslash) == bs),
    }
}

/// What the parse returns once the delimiter is settled: the escape mode
/// follows the quote rule, and the shape verdict decides the rest.
pub open spec fn spec_side_outcome(
    g: Seq<u8>,
    d: u8,
    skip_sep: bool,
    file: FileSide,
    paths: RerunPaths,
    r: Result<ParsedCsv, (RefusalCode, RefusalDetail)>,
) -> bool {
    match spec_escape_choice(g, d) {
        None => r matches Err((c, det)) && c == RefusalCode::CsvParse && (det.kind matches
            RefusalKind::CsvParse { file: f2, line, column } && f2 == file && column is None && (
        line matches Some(l) && Some(l as int) == crate::parser::spec_quote_fault_line(
            g,
            d,
            false,
            false,
            1,
        ))) && det.next@ == crate::details::spec_default_next(det.kind, paths),
        Some(bs) => spec_shaped_outcome(g, d, bs, skip_sep, file, paths, r),
    }
}

/// How a dialect failure maps to its refusal code and detail.
pub open spec fn spec_mapped_dialect(
    err: DialectError,
    file: FileSide,
    c: RefusalCode,
    d: RefusalDetail,
    paths: RerunPaths,
) -> bool {
    (match err {
        DialectError::NoHeader => c == RefusalCode::Headers && (d.kind matches
            RefusalKind::Headers { file: f2, issue: HeadersIssue::MissingHeader } && f2 == file),
        DialectError::CsvParse { .. } => c == RefusalCode::CsvParse && (d.kind matches
            RefusalKind::CsvParse { file: f2, line, column } && f2 == file && line is None
            && column is None),
        DialectError::Ambiguous { tied } => c == RefusalCode::Dialect && (d.kind matches
            RefusalKind::Dialect { file: f2, tied_delimiters, .. } && f2 == file
            && tied_delimiters@ == tied@),
        DialectError::SingleColumn { delimiter } => c == RefusalCode::Dialect && (d.kind matches
            RefusalKind::Dialect { file: f2, tied_delimiters, .. } && f2 == file
            && tied_delimiters@.len() == 1 && tied_delimiters@[0] == delimiter),
    }) && d.next@ == crate::details::spec_default_next(d.kind, paths)
}

/// Map a dialect detection failure to its refusal.
pub fn map_dialect_error(err: DialectError, file: FileSide, paths: &RerunPaths) -> (r: (
    RefusalCode,
    RefusalDetail,
))
    ensures
        spec_mapped_dialect(err, file, r.0, r.1, *paths),
{
    match err {
        DialectError::NoHeader => {
            let kind = RefusalKind::Headers { file, issue: HeadersIssue::MissingHeader };
            let d = RefusalDetail::with_default_next(kind, paths);
            (RefusalCode::Headers, d)
        },
        DialectError::CsvParse { .. } => {
            let kind = RefusalKind::CsvParse { file, line: None, column: None };
            let d = RefusalDetail::with_default_next(kind, paths);
            (RefusalCode::CsvParse, d)
        },
        DialectError::Ambiguous { tied } => {
            let first: u8 = if tied.len() > 0 {
                tied[0]
            } else {
                0x2C
            };
            let kind = RefusalKind::Dialect {
                file,
                tied_delimiters: tied,
                suggestion: DialectSuggestion::SepDirective(first),
            };
            let d = RefusalDetail::with_default_next(kind, paths);
            (RefusalCode::Dialect, d)
        },
        DialectError::SingleColumn { delimiter } => {
            let mut one: Vec<u8> = Vec::new();
            one.push(delimiter);
            let kind = RefusalKind::Dialect {
                file,
                tied_delimiters: one,
                suggestion: DialectSuggestion::ForceDelimiter(delimiter_hint(delimiter)),
            };
            let d = RefusalDetail::with_default_next(kind, paths);
            (RefusalCode::Dialect, d)
        },
    }
}

/// The CLI hint for a delimiter byte: its name where it has one.
pub fn delimiter_hint(delimiter: u8) -> (r: DelimiterHint)
    ensures
        delimiter == 0x2C ==> r == DelimiterHint::Named(NamedDelimiter::Comma),
        delimiter == 0x09 ==> r == DelimiterHint::Named(NamedDelimiter::Tab),
        delimiter == 0x3B ==> r == DelimiterHint::Named(NamedDelimiter::Semicolon),
        delimiter == 0x7C ==> r == DelimiterHint::Named(NamedDelimiter::Pipe),
        delimiter == 0x5E ==> r == DelimiterHint::Named(NamedDelimiter::Caret),
        delimiter != 0x2C && delimiter != 0x09 && delimiter != 0x3B && delimiter != 0x7C
            && delimiter != 0x5E ==> r == DelimiterHint::Byte(delimiter),
{
    if delimiter == 0x2C {
        DelimiterHint::Named(NamedDelimiter::Comma)
    } else if delimiter == 0x09 {
        DelimiterHint::Named(NamedDelimiter::Tab)
    } else if delimiter == 0x3B {
        DelimiterHint::Named(NamedDelimiter::Semicolon)
    } else if delimiter == 0x7C {
        DelimiterHint::Named(NamedDelimiter::Pipe)
    } else if delimiter == 0x5E {
        DelimiterHint::Named(NamedDelimiter::Caret)
    } else {
        DelimiterHint::Byte(delimiter)
    }
}

/// The whole contract of one side's parse, once the encoding guard has
/// passed: the delimiter is the forced one, the `sep=` directive's, or
/// auto-detection's choice, and the shape verdict decides the result.
pub open spec fn spec_parse_verdict(
    g: Seq<u8>,
    forced: Option<u8>,
    file: FileSide,
    paths: RerunPaths,
    r: Result<ParsedCsv, (RefusalCode, RefusalDetail)>,
) -> bool {
    let ss = spec_sep_delim(g) is Some;
    match forced {
        Some(fd) => spec_side_outcome(g, fd, ss, file, paths, r),
        None => match spec_sep_delim(g) {
            Some(sd) => spec_side_outcome(g, sd, ss, file, paths, r),
            None => {
                ||| exists|dl: crate::dialect::Dialect|
                    #[trigger] crate::dialect::spec_auto_ok(g, dl) && spec_shaped_outcome(
                        g,
                        dl.delimiter,
                        dl.escape == EscapeMode::Backslash,
                        false,
                        file,
                        paths,
                        r,
                    )
                ||| (r matches Err((c, d2)) && exists|e: DialectError|
                    #[trigger] crate::dialect::spec_auto_err(g, e) && spec_mapped_dialect(
                        e,
                        file,
                        c,
                        d2,
                        paths,
                    ))
            },
        },
    }
}

proof fn lemma_verdict_from_shape(
    g: Seq<u8>,
    forced: Option<u8>,
    file: FileSide,
    paths: RerunPaths,
    delimiter: u8,
    bs: bool,
    auto_dl: Option<crate::dialect::Dialect>,
    r: Result<ParsedCsv, (RefusalCode, RefusalDetail)>,
)
    requires
        match forced {
            Some(fd) => delimiter == fd && spec_escape_choice(g, fd) == Some(bs),
            None => match spec_sep_delim(g) {
                Some(sd) => delimiter == sd && spec_escape_choice(g, sd) == Some(bs),
                None => auto_dl matches Some(dl) && crate::dialect::spec_auto_ok(g, dl)
                    && dl.delimiter == delimiter && ((dl.escape == EscapeMode::Backslash) == bs),
            },
        },
        spec_shaped_outcome(g, delimiter, bs, spec_sep_delim(g) is Some, file, paths, r),
    ensures
        spec_parse_verdict(g, forced, file, paths, r),
{
    match forced {
        Some(fd) => {},
        None => {
            match spec_sep_delim(g) {
                Some(sd) => {},
                None => {
                    match auto_dl {
                        Some(dl) => {
                            assert(crate::dialect::spec_auto_ok(g, dl) && spec_shaped_outcome(
                                g,
                                dl.delimiter,
                                dl.escape == EscapeMode::Backslash,
                                false,
                                file,
                                paths,
                                r,
                            ));
                        },
                        None => {},
                    }
                },
            }
        },
    }
}

/// Parse one side: guard the bytes, settle the dialect, read the records,
/// take the header, and width-normalize the data rows (blank rows
/// dropped, each stored row exactly header width).
#[verifier::rlimit(100)]
#[verifier::spinoff_prover]
pub fn parse_side(input: &[u8], file: FileSide, forced: Option<u8>, paths: &RerunPaths) -> (r:
    Result<ParsedCsv, (RefusalCode, RefusalDetail)>)
    requires
        input@.len() < u64::MAX,
    ensures
        crate::input::spec_has_utf16_or_32_bom(input@) ==> (r matches Err((c, d)) && c
            == RefusalCode::Encoding && (d.kind matches RefusalKind::Encoding { file: f2, .. } && f2
            == file)),
        r matches Ok(p) ==> {
            &&& crate::headers::spec_names_unique(views_of(p.headers@))
            &&& forall|i: int|
                0 <= i < p.records@.len() ==> (#[trigger] views_of_records(p.records@)[i]).len()
                    == p.headers@.len()
            &&& forall|i: int|
                0 <= i < p.records@.len() ==> !crate::blank::spec_is_blank_record(
                    #[trigger] views_of_records(p.records@)[i],
                )
        },
        ({
            let g = crate::input::spec_strip_utf8_bom(input@);
            let enc = crate::input::spec_has_utf16_or_32_bom(input@)
                || crate::input::spec_has_nul_in_first_8k(g);
            &&& enc == (r matches Err((c, d2)) && c == RefusalCode::Encoding)
            &&& crate::input::spec_has_utf16_or_32_bom(input@) ==> (r matches Err((c, d2)) && (
            d2.kind matches RefusalKind::Encoding { file: f2, issue } && f2 == file && issue == (
            if crate::input::spec_has_utf32_bom(input@) {
                EncodingIssue::Utf32
            } else {
                EncodingIssue::Utf16
            })) && d2.next@ == crate::details::spec_default_next(d2.kind, *paths))
            &&& (!crate::input::spec_has_utf16_or_32_bom(input@)
                && crate::input::spec_has_nul_in_first_8k(g)) ==> (r matches Err((c, d2)) && (
            d2.kind matches RefusalKind::Encoding { file: f2, issue } && f2 == file && issue
                == EncodingIssue::NulByte) && d2.next@ == crate::details::spec_default_next(
                d2.kind,
                *paths,
            ))
            &&& !enc ==> spec_parse_verdict(g, forced, file, *paths, r)
        }),
{
    let ghost gsp = crate::input::spec_strip_utf8_bom(input@);
    // encoding guard
    let guarded = match crate::input::guard_input_bytes(input) {
        Ok(g) => g,
        Err(issue) => {
            let det = match issue {
                crate::input::EncodingIssue::Utf16Or32Bom => {
                    if crate::input::classify_bom_is_utf32(input) {
                        EncodingIssue::Utf32
                    } else {
                        EncodingIssue::Utf16
                    }
                },
                crate::input::EncodingIssue::NulByte => EncodingIssue::NulByte,
            };
            let kind = RefusalKind::Encoding { file, issue: det };
            let d = RefusalDetail::with_default_next(kind, paths);
            return Err((RefusalCode::Encoding, d));
        },
    };
    proof {
        assert(guarded@ == gsp);
        assert(!crate::input::spec_has_utf16_or_32_bom(input@));
        assert(!crate::input::spec_has_nul_in_first_8k(gsp));
    }
    // sep= directive
    let lines = crate::blank::split_lines(guarded);
    let scan = crate::sep::scan_first_non_blank_line(&lines);
    let sep_delim: Option<u8> = match &scan {
        crate::sep::SepScan::Directive { delimiter, .. } => Some(*delimiter),
        _ => None,
    };
    proof {
        let lv = views_of(lines@);
        assert(lv == crate::blank::spec_split_lines(gsp));
        match scan {
            crate::sep::SepScan::Directive { delimiter, line_index } => {
                lemma_first_non_blank_at(lv, line_index as int);
            },
            crate::sep::SepScan::FirstNonBlank { line_index, .. } => {
                lemma_first_non_blank_at(lv, line_index as int);
            },
            crate::sep::SepScan::NoLines => {
                lemma_first_non_blank_at(lv, lv.len() as int);
            },
        }
        assert(sep_delim == spec_sep_delim(gsp));
    }
    let skip_sep = match sep_delim {
        Some(_) => true,
        None => false,
    };
    let ghost mut auto_ok_dl: Option<crate::dialect::Dialect> = None;
    // delimiter and escape mode
    let (delimiter, escape) = match forced {
        Some(fd) => {
            match crate::parser::detect_escape_mode(guarded, fd) {
                Ok(esc) => (fd, esc),
                Err(e) => {
                    let kind = RefusalKind::CsvParse { file, line: e.line, column: None };
                    let d = RefusalDetail::with_default_next(kind, paths);
                    proof {
                        assert(spec_escape_choice(gsp, fd) is None);
                    }
                    return Err((RefusalCode::CsvParse, d));
                },
            }
        },
        None => {
            match sep_delim {
                Some(sd) => {
                    match crate::parser::detect_escape_mode(guarded, sd) {
                        Ok(esc) => (sd, esc),
                        Err(e) => {
                            let kind = RefusalKind::CsvParse { file, line: e.line, column: None };
                            let d = RefusalDetail::with_default_next(kind, paths);
                            proof {
                                assert(spec_escape_choice(gsp, sd) is None);
                            }
                            return Err((RefusalCode::CsvParse, d));
                        },
                    }
                },
                None => {
                    match crate::dialect::auto_detect(guarded) {
                        Ok(dl) => {
                            proof {
                                auto_ok_dl = Some(dl);
                            }
                            (dl.delimiter, dl.escape)
                        },
                        Err(err) => {
                            let ghost eg = err;
                            let mapped = map_dialect_error(err, file, paths);
                            proof {
                                assert(crate::dialect::spec_auto_err(gsp, eg));
                                assert(spec_mapped_dialect(eg, file, mapped.0, mapped.1, *paths));
                            }
                            return Err(mapped);
                        },
                    }
                },
            }
        },
    };
    let ghost bsg = (escape == EscapeMode::Backslash);
    proof {
        assert(match forced {
            Some(fd) => delimiter == fd && spec_escape_choice(gsp, fd) == Some(bsg),
            None => match spec_sep_delim(gsp) {
                Some(sd) => delimiter == sd && spec_escape_choice(gsp, sd) == Some(bsg),
                None => auto_ok_dl matches Some(dl) && crate::dialect::spec_auto_ok(gsp, dl)
                    && dl.delimiter == delimiter && ((dl.escape == EscapeMode::Backslash) == bsg),
            },
        });
    }
    // read and shape the records
    let raw = crate::parser::read_records(guarded, delimiter, escape);
    let ghost rawv = views_of_records(raw@);
    proof {
        assert(rawv == crate::parser::spec_csv_records(gsp, delimiter, bsg));
        assert(rawv.skip(0) =~= rawv);
    }
    let n = raw.len();
    let mut headers: Option<Vec<Vec<u8>>> = None;
    let mut records: Vec<Vec<Vec<u8>>> = Vec::new();
    let mut data_index: u64 = 0;
    let mut skipped_sep = !skip_sep;
    proof {
        assert(!crate::input::spec_has_utf16_or_32_bom(input@));
    }
    let mut k: usize = 0;
    while k < n
        invariant
            0 <= k <= n,
            n == raw@.len(),
            data_index <= k as u64,
            gsp == crate::input::spec_strip_utf8_bom(input@),
            !crate::input::spec_has_utf16_or_32_bom(input@),
            !crate::input::spec_has_nul_in_first_8k(gsp),
            skip_sep == (spec_sep_delim(gsp) is Some),
            bsg == (escape == EscapeMode::Backslash),
            rawv == views_of_records(raw@),
            rawv == crate::parser::spec_csv_records(gsp, delimiter, bsg),
            match forced {
                Some(fd) => delimiter == fd && spec_escape_choice(gsp, fd) == Some(bsg),
                None => match spec_sep_delim(gsp) {
                    Some(sd) => delimiter == sd && spec_escape_choice(gsp, sd) == Some(bsg),
                    None => auto_ok_dl matches Some(dl) && crate::dialect::spec_auto_ok(gsp, dl)
                        && dl.delimiter == delimiter && ((dl.escape == EscapeMode::Backslash)
                        == bsg),
                },
            },
            headers is None ==> data_index == 0,
            headers is None ==> records@.len() == 0,
            headers is None ==> spec_shape_side(rawv, skip_sep) == spec_shape_side(
                rawv.skip(k as int),
                !skipped_sep,
            ),
            headers matches Some(h) ==> spec_shape_side(rawv, skip_sep) == spec_shape_data(
                rawv.skip(k as int),
                views_of(h@),
                data_index,
                views_of_records(records@),
            ),
            headers matches Some(h) ==> crate::headers::spec_names_unique(views_of(h@)),
            forall|i: int|
                0 <= i < records@.len() ==> !crate::blank::spec_is_blank_record(
                    #[trigger] views_of_records(records@)[i],
                ),
            headers matches Some(h) ==> forall|i: int|
                0 <= i < records@.len() ==> (#[trigger] views_of_records(records@)[i]).len()
                    == h@.len(),
        decreases n - k,
    {
        let ghost rest = rawv.skip(k as int);
        proof {
            assert(rest[0] == rawv[k as int]);
            assert(rawv[k as int] == views_of(raw@[k as int]@));
            assert(rest.drop_first() =~= rawv.skip(k as int + 1));
        }
        let is_blank = crate::blank::is_blank_record(&raw[k]);
        let rec_len = raw[k].len();
        proof {
            assert(rest[0].len() == rec_len as int);
            assert(is_blank == crate::blank::spec_is_blank_record(rest[0]));
        }
        let have_header = match headers {
            Some(_) => true,
            None => false,
        };
        if !have_header {
            if is_blank && rec_len == 1 {
                k = k + 1;
                continue ;
            }
            if !skipped_sep {
                skipped_sep = true;
                k = k + 1;
                continue ;
            }
            match crate::headers::normalize_headers(&raw[k]) {
                Ok(h) => {
                    proof {
                        assert(views_of(h@) == crate::headers::spec_normalized_names(rest[0]));
                        assert(views_of_records(records@) =~= Seq::<Seq<Seq<u8>>>::empty());
                        assert(spec_shape_side(rest, false) == spec_shape_data(
                            rest.drop_first(),
                            views_of(h@),
                            0,
                            Seq::empty(),
                        ));
                    }
                    headers = Some(h);
                },
                Err(dup) => {
                    proof {
                        let names = crate::headers::spec_normalized_names(rest[0]);
                        assert(names[dup.first_index - 1] == names[dup.second_index - 1]);
                        assert(!crate::headers::spec_names_unique(names));
                        lemma_first_dup_at(names, dup.second_index - 1, 0);
                        assert(spec_shape_side(rest, false) == (SideShape::DuplicateName {
                            name: dup.name@,
                        }));
                    }
                    let kind = RefusalKind::Headers {
                        file,
                        issue: HeadersIssue::Duplicate { name: dup.name },
                    };
                    let d = RefusalDetail::with_default_next(kind, paths);
                    let ret: Result<ParsedCsv, (RefusalCode, RefusalDetail)> = Err(
                        (RefusalCode::Headers, d),
                    );
                    proof {
                        assert(spec_shaped_outcome(
                            gsp,
                            delimiter,
                            bsg,
                            skip_sep,
                            file,
                            *paths,
                            ret,
                        ));
                        lemma_verdict_from_shape(
                            gsp,
                            forced,
                            file,
                            *paths,
                            delimiter,
                            bsg,
                            auto_ok_dl,
                            ret,
                        );
                    }
                    return ret;
                },
            }
            k = k + 1;
            continue ;
        }
        if is_blank {
            k = k + 1;
            continue ;
        }
        if data_index < u64::MAX {
            data_index = data_index + 1;
        }
        let header_len = match &headers {
            Some(h) => h.len(),
            None => 0,
        };
        let rec = crate::key_join::clone_record(&raw[k]);
        match crate::records::normalize_record(rec, header_len, data_index) {
            Ok(nr) => {
                let ghost fsv = nr.fields_view();
                proof {
                    assert(fsv == rest[0]);
                    assert(spec_row_fits(rest[0], header_len as int));
                }
                let mut owned: Vec<Vec<u8>> = Vec::new();
                let mut f: usize = 0;
                while f < header_len
                    invariant
                        0 <= f <= header_len,
                        owned@.len() == f,
                        nr.spec_len() == header_len,
                        fsv == nr.fields_view(),
                        forall|f2: int|
                            0 <= f2 < f ==> #[trigger] views_of(owned@)[f2]
                                == crate::records::spec_norm_field(fsv, header_len as nat, f2),
                    decreases header_len - f,
                {
                    let ghost pre = views_of(owned@);
                    owned.push(nr.field(f));
                    proof {
                        assert(views_of(owned@) =~= pre.push(
                            crate::records::spec_norm_field(fsv, header_len as nat, f as int),
                        ));
                    }
                    f = f + 1;
                }
                proof {
                    assert(views_of(owned@) =~= spec_norm_row(rest[0], header_len as nat));
                    // the raw record is not blank, its extras are blank,
                    // so some in-width field is non-blank and survives
                    let rawrec = views_of(raw@[k as int]@);
                    assert(!crate::blank::spec_is_blank_record(rawrec));
                    let w = choose|w: int|
                        0 <= w < rawrec.len() && !crate::trim::spec_is_blank_seq(rawrec[w]);
                    assert(w < header_len);
                    assert(views_of(owned@)[w] == crate::records::spec_norm_field(
                        fsv,
                        header_len as nat,
                        w,
                    ));
                    assert(fsv == rawrec);
                    assert(views_of(owned@)[w] == rawrec[w]);
                    assert(!crate::blank::spec_is_blank_record(views_of(owned@)));
                    let ghost pre_r = records@;
                    assert(views_of_records(records@.push(owned))[pre_r.len() as int]
                        == views_of(owned@));
                }
                let ghost pre_records = records@;
                records.push(owned);
                proof {
                    assert(views_of_records(records@) =~= views_of_records(pre_records).push(
                        spec_norm_row(rest[0], header_len as nat),
                    ));
                    assert forall|i: int|
                        0 <= i < records@.len() implies !crate::blank::spec_is_blank_record(
                        #[trigger] views_of_records(records@)[i],
                    ) by {
                        if i < pre_records.len() {
                            assert(views_of_records(records@)[i] == views_of_records(
                                pre_records,
                            )[i]);
                        }
                    }
                    match headers {
                        Some(ref h) => {
                            assert(header_len == h@.len());
                            assert forall|i: int|
                                0 <= i < records@.len() implies (#[trigger] views_of_records(
                                records@,
                            )[i]).len() == h@.len() by {
                                if i < pre_records.len() {
                                    assert(views_of_records(records@)[i] == views_of_records(
                                        pre_records,
                                    )[i]);
                                }
                            }
                        },
                        None => {},
                    }
                }
            },
            Err(e) => {
                proof {
                    assert(!crate::trim::spec_is_blank_seq(rest[0][e.first_extra_index as int]));
                    assert(!spec_row_fits(rest[0], header_len as int));
                }
                let kind = RefusalKind::Headers {
                    file,
                    issue: HeadersIssue::ExtraFields { record: e.record_number },
                };
                let d = RefusalDetail::with_default_next(kind, paths);
                let ret: Result<ParsedCsv, (RefusalCode, RefusalDetail)> = Err(
                    (RefusalCode::Headers, d),
                );
                proof {
                    assert(spec_shape_side(rawv, skip_sep) == (SideShape::ExtraFields {
                        record: e.record_number,
                    }));
                    assert(spec_shaped_outcome(gsp, delimiter, bsg, skip_sep, file, *paths, ret));
                    lemma_verdict_from_shape(
                        gsp,
                        forced,
                        file,
                        *paths,
                        delimiter,
                        bsg,
                        auto_ok_dl,
                        ret,
                    );
                }
                return ret;
            },
        }
        k = k + 1;
    }
    proof {
        assert(rawv.skip(n as int) =~= Seq::<Seq<Seq<u8>>>::empty());
    }
    match headers {
        Some(h) => {
            let ret: Result<ParsedCsv, (RefusalCode, RefusalDetail)> = Ok(
                ParsedCsv { delimiter, escape, headers: h, records },
            );
            proof {
                assert(spec_shaped_outcome(gsp, delimiter, bsg, skip_sep, file, *paths, ret));
                lemma_verdict_from_shape(
                    gsp,
                    forced,
                    file,
                    *paths,
                    delimiter,
                    bsg,
                    auto_ok_dl,
                    ret,
                );
            }
            ret
        },
        None => {
            let kind = RefusalKind::Headers { file, issue: HeadersIssue::MissingHeader };
            let d = RefusalDetail::with_default_next(kind, paths);
            let ret: Result<ParsedCsv, (RefusalCode, RefusalDetail)> = Err(
                (RefusalCode::Headers, d),
            );
            proof {
                assert(spec_shape_side(rawv, skip_sep) == SideShape::MissingHeader);
                assert(spec_shaped_outcome(gsp, delimiter, bsg, skip_sep, file, *paths, ret));
                lemma_verdict_from_shape(
                    gsp,
                    forced,
                    file,
                    *paths,
                    delimiter,
                    bsg,
                    auto_ok_dl,
                    ret,
                );
            }
            ret
        },
    }
}


/// Two optional byte strings agree.
pub open spec fn spec_opt_bytes_eq(a: Option<Vec<u8>>, b: Option<Vec<u8>>) -> bool {
    match (a, b) {
        (Some(x), Some(y)) => x@ == y@,
        (None, None) => true,
        _ => false,
    }
}

/// Map a key-join failure to its refusal code and detail.
pub fn map_key_join_error(
    file: FileSide,
    key_column: Vec<u8>,
    err: crate::key_join::KeyJoinError,
    paths: &RerunPaths,
) -> (r: (RefusalCode, RefusalDetail))
    ensures
        match err {
            crate::key_join::KeyJoinError::EmptyKey { record_number } => r.0
                == RefusalCode::KeyEmpty && (r.1.kind matches RefusalKind::KeyEmpty {
                file: f2,
                record,
                key_column: kc,
            } && f2 == file && record == record_number && kc@ == key_column@),
            crate::key_join::KeyJoinError::DuplicateKey { key, first_record, second_record } => r.0
                == RefusalCode::KeyDup && (r.1.kind matches RefusalKind::KeyDup {
                file: f2,
                record,
                key_value,
            } && f2 == file && record == second_record && key_value@ == key@),
            crate::key_join::KeyJoinError::KeySetMismatch {
                missing_count,
                extra_count,
                missing_samples,
                extra_samples,
            } => r.0 == RefusalCode::KeyMismatch && (r.1.kind matches RefusalKind::KeyMismatch {
                missing_in_new,
                extra_in_new,
                missing_samples: ms,
                extra_samples: es,
            } && missing_in_new == missing_count && extra_in_new == extra_count && views_of(ms@)
                == views_of(missing_samples@) && views_of(es@) == views_of(extra_samples@)),
        },
        r.1.next@ == crate::details::spec_default_next(r.1.kind, *paths),
{
    match err {
        crate::key_join::KeyJoinError::EmptyKey { record_number } => {
            let kind = RefusalKind::KeyEmpty { file, record: record_number, key_column };
            let d = RefusalDetail::with_default_next(kind, paths);
            (RefusalCode::KeyEmpty, d)
        },
        crate::key_join::KeyJoinError::DuplicateKey { key, first_record: _, second_record } => {
            let kind = RefusalKind::KeyDup { file, record: second_record, key_value: key };
            let d = RefusalDetail::with_default_next(kind, paths);
            (RefusalCode::KeyDup, d)
        },
        crate::key_join::KeyJoinError::KeySetMismatch {
            missing_count,
            extra_count,
            missing_samples,
            extra_samples,
        } => {
            let kind = RefusalKind::KeyMismatch {
                missing_in_new: missing_count,
                extra_in_new: extra_count,
                missing_samples,
                extra_samples,
            };
            let d = RefusalDetail::with_default_next(kind, paths);
            (RefusalCode::KeyMismatch, d)
        },
    }
}

/// Map a column-typing failure to its refusal code and detail, carrying
/// the row's key value into the report.
pub fn map_column_error(err: crate::columns::ColumnTypingError, paths: &RerunPaths) -> (r: (
    RefusalCode,
    RefusalDetail,
))
    ensures
        match err {
            crate::columns::ColumnTypingError::MixedTypes(d) => r.0 == RefusalCode::MixedTypes && (
            r.1.kind matches RefusalKind::MixedTypes { file: f2, record, column, value, key_value }
                && f2 == (if d.side == crate::columns::Side::Old {
                FileSide::Old
            } else {
                FileSide::New
            }) && record == (if d.side == crate::columns::Side::Old {
                d.row.old_record
            } else {
                d.row.new_record
            }) && column@ == d.column@ && value@ == d.value@ && spec_opt_bytes_eq(
                key_value,
                d.row.key,
            )),
            crate::columns::ColumnTypingError::Missingness(d) => r.0 == RefusalCode::Missingness
                && (r.1.kind matches RefusalKind::Missingness {
                file: f2,
                record,
                column,
                value,
                key_value,
            } && f2 == (if d.missing_side == crate::columns::Side::Old {
                FileSide::New
            } else {
                FileSide::Old
            }) && record == (if d.missing_side == crate::columns::Side::Old {
                d.row.new_record
            } else {
                d.row.old_record
            }) && column@ == d.column@ && value@ == d.present_value@ && spec_opt_bytes_eq(
                key_value,
                d.row.key,
            )),
        },
        r.1.next@ == crate::details::spec_default_next(r.1.kind, *paths),
{
    match err {
        crate::columns::ColumnTypingError::MixedTypes(d) => {
            let record = d.row.record_for(d.side);
            let file = match d.side {
                crate::columns::Side::Old => FileSide::Old,
                crate::columns::Side::New => FileSide::New,
            };
            let kind = RefusalKind::MixedTypes {
                file,
                record,
                column: d.column,
                value: d.value,
                key_value: d.row.key,
            };
            let det = RefusalDetail::with_default_next(kind, paths);
            (RefusalCode::MixedTypes, det)
        },
        crate::columns::ColumnTypingError::Missingness(d) => {
            let (file, record) = match d.missing_side {
                crate::columns::Side::Old => (FileSide::New, d.row.new_record),
                crate::columns::Side::New => (FileSide::Old, d.row.old_record),
            };
            let kind = RefusalKind::Missingness {
                file,
                record,
                column: d.column,
                value: d.present_value,
                key_value: d.row.key,
            };
            let det = RefusalDetail::with_default_next(kind, paths);
            (RefusalCode::Missingness, det)
        },
    }
}

/// The coverage verdict over the retained top contributors.
#[derive(Debug, Clone, PartialEq, Eq, Structural)]
pub enum CoverageDecision {
    NoChange,
    Diffuse { top_k_coverage_bits: u64 },
    Explainable { cutoff: usize, coverage_bits: u64 },
}

/// `cum_bits[i]` is the IEEE bit pattern of the coverage of the first i+1
/// retained contributors; bit order equals numeric order for these
/// non-negative finite values.
pub fn evaluate_coverage(
    cum_bits: &Vec<u64>,
    total_positive_finite: bool,
    threshold_bits: u64,
) -> (r: CoverageDecision)
    ensures
        !total_positive_finite ==> r == CoverageDecision::NoChange,
        total_positive_finite && (forall|i: int|
            0 <= i < cum_bits@.len() ==> cum_bits@[i] < threshold_bits) ==> (r matches
        CoverageDecision::Diffuse { top_k_coverage_bits } && (cum_bits@.len() == 0
            || top_k_coverage_bits == cum_bits@[cum_bits@.len() - 1])),
        total_positive_finite && (exists|i: int|
            0 <= i < cum_bits@.len() && cum_bits@[i] >= threshold_bits) ==> (r matches
        CoverageDecision::Explainable { cutoff, coverage_bits } && 1 <= cutoff <= cum_bits@.len()
            && cum_bits@[cutoff - 1] >= threshold_bits && coverage_bits == cum_bits@[cutoff - 1] && (
        forall|i: int| 0 <= i < cutoff - 1 ==> cum_bits@[i] < threshold_bits)),
{
    if !total_positive_finite {
        return CoverageDecision::NoChange;
    }
    let n = cum_bits.len();
    let mut i: usize = 0;
    while i < n
        invariant
            0 <= i <= n,
            n == cum_bits@.len(),
            total_positive_finite,
            forall|j: int| 0 <= j < i ==> cum_bits@[j] < threshold_bits,
        decreases n - i,
    {
        if cum_bits[i] >= threshold_bits {
            return CoverageDecision::Explainable { cutoff: i + 1, coverage_bits: cum_bits[i] };
        }
        i = i + 1;
    }
    if n == 0 {
        CoverageDecision::Diffuse { top_k_coverage_bits: 0 }
    } else {
        CoverageDecision::Diffuse { top_k_coverage_bits: cum_bits[n - 1] }
    }
}

} // verus!
