//! Key-mode join and key-set validation.
//!
//! One side's records are indexed by the trimmed key bytes; empty and
//! duplicate keys refuse; equal key sets join in ascending key order.

use vstd::prelude::*;

use crate::blank::spec_is_blank_record;
use crate::bytes::{lex_le, lex_lt, views_of};
use crate::trim::trim_of;

verus! {

/// One record stored under its key.
#[derive(Debug, Clone)]
pub struct KeyEntry {
    pub record_number: u64,
    pub fields: Vec<Vec<u8>>,
}

/// A keyed side: entries in insertion order, keys unique.
#[derive(Debug, Clone)]
pub struct KeyMap {
    pub entries: Vec<(Vec<u8>, KeyEntry)>,
}

/// One aligned row of the key join.
#[derive(Debug, Clone)]
pub struct KeyAlignedRow {
    pub key: Vec<u8>,
    pub old: KeyEntry,
    pub new: KeyEntry,
}

/// Errors encountered in key-mode alignment.
#[derive(Debug, Clone, PartialEq, Eq)]
pub enum KeyJoinError {
    EmptyKey { record_number: u64 },
    DuplicateKey { key: Vec<u8>, first_record: u64, second_record: u64 },
    KeySetMismatch {
        missing_count: usize,
        extra_count: usize,
        missing_samples: Vec<Vec<u8>>,
        extra_samples: Vec<Vec<u8>>,
    },
}

/// The spec view of one stored entry: key bytes, record number, fields.
pub type SpecEntry = (Seq<u8>, u64, Seq<Seq<u8>>);

/// The spec view of a record list handed to the builder.
pub open spec fn rec_views(s: Seq<(u64, Vec<Vec<u8>>)>) -> Seq<(u64, Seq<Seq<u8>>)> {
    s.map_values(|p: (u64, Vec<Vec<u8>>)| (p.0, views_of(p.1@)))
}

/// The spec view of stored entries.
pub open spec fn entry_views(s: Seq<(Vec<u8>, KeyEntry)>) -> Seq<SpecEntry> {
    s.map_values(|p: (Vec<u8>, KeyEntry)| (p.0@, p.1.record_number, views_of(p.1.fields@)))
}

/// First index holding the key, or -1.
pub open spec fn spec_find_key(acc: Seq<SpecEntry>, key: Seq<u8>) -> int
    decreases acc.len(),
{
    if acc.len() == 0 {
        -1
    } else if acc[0].0 == key {
        0
    } else {
        let r = spec_find_key(acc.drop_first(), key);
        if r < 0 {
            -1
        } else {
            1 + r
        }
    }
}

/// The key of one record: the trimmed bytes of the key column, or empty
/// when the record is too short.
pub open spec fn spec_key_of(rec: Seq<Seq<u8>>, ki: int) -> Seq<u8> {
    if 0 <= ki < rec.len() {
        trim_of(rec[ki])
    } else {
        Seq::<u8>::empty()
    }
}

/// The key-map build walk: blank records skipped, empty keys refused
/// (code 0), duplicates refused (code 1) with both record numbers.
pub open spec fn spec_key_walk(
    rs: Seq<(u64, Seq<Seq<u8>>)>,
    ki: int,
    acc: Seq<SpecEntry>,
) -> Result<Seq<SpecEntry>, (int, Seq<u8>, u64, u64)>
    decreases rs.len(),
{
    if rs.len() == 0 {
        Ok(acc)
    } else {
        let (num, rec) = rs[0];
        if spec_is_blank_record(rec) {
            spec_key_walk(rs.drop_first(), ki, acc)
        } else {
            let key = spec_key_of(rec, ki);
            if key.len() == 0 {
                Err((0, key, num, num))
            } else {
                let at = spec_find_key(acc, key);
                if at >= 0 {
                    Err((1, key, acc[at].1, num))
                } else {
                    spec_key_walk(rs.drop_first(), ki, acc.push((key, num, rec)))
                }
            }
        }
    }
}

fn find_key_exec(entries: &Vec<(Vec<u8>, KeyEntry)>, key: &[u8]) -> (r: Option<usize>)
    ensures
        match r {
            Some(i) => spec_find_key(entry_views(entries@), key@) == i && i < entries@.len(),
            None => spec_find_key(entry_views(entries@), key@) < 0,
        },
{
    let ghost ev = entry_views(entries@);
    let n = entries.len();
    let mut i: usize = 0;
    while i < n
        invariant
            0 <= i <= n,
            n == entries@.len(),
            ev == entry_views(entries@),
            forall|j: int| 0 <= j < i ==> #[trigger] ev[j].0 != key@,
        decreases n - i,
    {
        proof {
            assert(ev[i as int].0 == entries@[i as int].0@);
        }
        if crate::bytes::bytes_eq(entries[i].0.as_slice(), key) {
            proof {
                lemma_find_key_at(ev, key@, i as int);
            }
            return Some(i);
        }
        i = i + 1;
    }
    proof {
        lemma_find_key_at(ev, key@, n as int);
    }
    None
}

proof fn lemma_find_key_at(acc: Seq<SpecEntry>, key: Seq<u8>, i: int)
    requires
        0 <= i <= acc.len(),
        forall|j: int| 0 <= j < i ==> #[trigger] acc[j].0 != key,
        i == acc.len() || acc[i].0 == key,
    ensures
        i < acc.len() ==> spec_find_key(acc, key) == i,
        i == acc.len() ==> spec_find_key(acc, key) < 0,
    decreases i,
{
    if i == 0 {
        if acc.len() > 0 && acc[0].0 != key {
            lemma_find_key_props(acc, key);
        }
    } else {
        lemma_find_key_at(acc.drop_first(), key, i - 1);
    }
}

proof fn lemma_find_key_props(acc: Seq<SpecEntry>, key: Seq<u8>)
    ensures
        spec_find_key(acc, key) >= 0 ==> spec_find_key(acc, key) < acc.len() && acc[spec_find_key(
            acc,
            key,
        )].0 == key,
        spec_find_key(acc, key) < 0 ==> forall|j: int| 0 <= j < acc.len() ==> #[trigger] acc[j].0
            != key,
    decreases acc.len(),
{
    if acc.len() > 0 && acc[0].0 != key {
        let t = acc.drop_first();
        lemma_find_key_props(t, key);
        if spec_find_key(acc, key) < 0 {
            assert forall|j: int| 0 <= j < acc.len() implies #[trigger] acc[j].0 != key by {
                if j > 0 {
                    assert(acc[j] == t[j - 1]);
                }
            }
        }
    }
}

/// Build a key map from numbered, normalized data records.
pub fn build_key_map(records: Vec<(u64, Vec<Vec<u8>>)>, key_index: usize) -> (r: Result<
    KeyMap,
    KeyJoinError,
>)
    ensures
        ({
            let walk = spec_key_walk(rec_views(records@), key_index as int, Seq::empty());
            match r {
                Ok(map) => walk == Result::<Seq<SpecEntry>, (int, Seq<u8>, u64, u64)>::Ok(
                    entry_views(map.entries@),
                ),
                Err(e) => match e {
                    KeyJoinError::EmptyKey { record_number } => walk matches Err(w) && w.0 == 0
                        && w.2 == record_number,
                    KeyJoinError::DuplicateKey { key, first_record, second_record } => walk matches
                        Err(w)
                        && w.0 == 1
                        && w.1 == key@
                        && w.2 == first_record
                        && w.3 == second_record,
                    KeyJoinError::KeySetMismatch { .. } => false,
                },
            }
        }),
{
    let ghost rv = rec_views(records@);
    let n = records.len();
    let mut entries: Vec<(Vec<u8>, KeyEntry)> = Vec::new();
    let mut i: usize = 0;
    proof {
        assert(rv.skip(0) =~= rv);
        assert(entry_views(entries@) =~= Seq::<SpecEntry>::empty());
    }
    while i < n
        invariant
            0 <= i <= n,
            n == records@.len(),
            rv == rec_views(records@),
            rv.len() == n,
            spec_key_walk(rv, key_index as int, Seq::empty()) == spec_key_walk(
                rv.skip(i as int),
                key_index as int,
                entry_views(entries@),
            ),
        decreases n - i,
    {
        let ghost rest = rv.skip(i as int);
        proof {
            assert(rest[0] == rv[i as int]);
            assert(rest.drop_first() =~= rv.skip(i + 1));
            assert(rv[i as int] == (records@[i as int].0, views_of(records@[i as int].1@)));
        }
        let num = records[i].0;
        if crate::blank::is_blank_record(&records[i].1) {
            i = i + 1;
            continue ;
        }
        let rec = &records[i].1;
        let raw: &[u8] = if key_index < rec.len() {
            rec[key_index].as_slice()
        } else {
            vstd::slice::slice_subrange(rec[0].as_slice(), 0, 0)
        };
        proof {
            if key_index < rec@.len() {
                assert(views_of(rec@)[key_index as int] == rec@[key_index as int]@);
            } else {
                assert(raw@ =~= Seq::<u8>::empty());
                crate::trim::lemma_blank_iff_trim_empty(raw@);
                assert(trim_of(raw@) =~= Seq::<u8>::empty());
            }
            assert(trim_of(raw@) == spec_key_of(views_of(rec@), key_index as int));
        }
        let key = crate::bytes::to_vec_bytes(crate::trim::ascii_trim(raw));
        if key.len() == 0 {
            return Err(KeyJoinError::EmptyKey { record_number: num });
        }
        match find_key_exec(&entries, key.as_slice()) {
            Some(at) => {
                proof {
                    assert(entry_views(entries@)[at as int].1 == entries@[at as int].1.record_number);
                }
                let first = entries[at].1.record_number;
                return Err(
                    KeyJoinError::DuplicateKey { key, first_record: first, second_record: num },
                );
            },
            None => {
                let ghost pre = entry_views(entries@);
                let fields = clone_record(rec);
                entries.push((key, KeyEntry { record_number: num, fields }));
                proof {
                    assert(entry_views(entries@) =~= pre.push(
                        (trim_of(raw@), num, views_of(rec@)),
                    ));
                }
                i = i + 1;
            },
        }
    }
    proof {
        assert(rv.skip(n as int) =~= Seq::<(u64, Seq<Seq<u8>>)>::empty());
    }
    Ok(KeyMap { entries })
}

/// Copy a record's fields.
pub fn clone_record(rec: &Vec<Vec<u8>>) -> (r: Vec<Vec<u8>>)
    ensures
        views_of(r@) == views_of(rec@),
{
    let n = rec.len();
    let mut out: Vec<Vec<u8>> = Vec::new();
    let mut i: usize = 0;
    while i < n
        invariant
            0 <= i <= n,
            n == rec@.len(),
            out@.len() == i,
            views_of(out@) =~= views_of(rec@).take(i as int),
        decreases n - i,
    {
        proof {
            assert(views_of(rec@)[i as int] == rec@[i as int]@);
        }
        let ghost pre = views_of(out@);
        out.push(crate::bytes::to_vec_bytes(rec[i].as_slice()));
        proof {
            assert(views_of(out@) =~= pre.push(rec@[i as int]@));
            assert(views_of(out@) =~= views_of(rec@).take(i + 1));
        }
        i = i + 1;
    }
    proof {
        assert(views_of(rec@).take(n as int) =~= views_of(rec@));
    }
    out
}

/// The keys of a map's entries.
pub open spec fn keys_of(ev: Seq<SpecEntry>) -> Seq<Seq<u8>> {
    ev.map_values(|e: SpecEntry| e.0)
}

/// Smaller of two mathematical integers.
pub open spec fn min_int(a: int, b: int) -> int {
    if a < b {
        a
    } else {
        b
    }
}

/// The keys of `a` that do not occur in `b`, in `a`'s order.
pub open spec fn keys_not_in(a: Seq<SpecEntry>, b: Seq<SpecEntry>) -> Seq<Seq<u8>>
    decreases a.len(),
{
    if a.len() == 0 {
        Seq::<Seq<u8>>::empty()
    } else {
        let rest = keys_not_in(a.drop_first(), b);
        if spec_find_key(b, a[0].0) < 0 {
            seq![a[0].0] + rest
        } else {
            rest
        }
    }
}

fn keys_not_in_exec(a: &Vec<(Vec<u8>, KeyEntry)>, b: &Vec<(Vec<u8>, KeyEntry)>) -> (r: Vec<
    Vec<u8>,
>)
    ensures
        views_of(r@) == keys_not_in(entry_views(a@), entry_views(b@)),
{
    let ghost av = entry_views(a@);
    let ghost bv = entry_views(b@);
    let n = a.len();
    let mut out: Vec<Vec<u8>> = Vec::new();
    let mut i: usize = 0;
    proof {
        assert(av.skip(0) =~= av);
        assert(views_of(out@) =~= Seq::<Seq<u8>>::empty());
    }
    while i < n
        invariant
            0 <= i <= n,
            n == a@.len(),
            av == entry_views(a@),
            bv == entry_views(b@),
            av.len() == n,
            keys_not_in(av, bv) == views_of(out@) + keys_not_in(av.skip(i as int), bv),
        decreases n - i,
    {
        let ghost rest = av.skip(i as int);
        proof {
            assert(rest[0] == av[i as int]);
            assert(rest.drop_first() =~= av.skip(i + 1));
            assert(av[i as int].0 == a@[i as int].0@);
        }
        match find_key_exec(b, a[i].0.as_slice()) {
            Some(_) => {},
            None => {
                let ghost pre = views_of(out@);
                out.push(crate::bytes::to_vec_bytes(a[i].0.as_slice()));
                proof {
                    assert(views_of(out@) =~= pre.push(av[i as int].0));
                    assert(pre.push(av[i as int].0) + keys_not_in(av.skip(i + 1), bv) =~= pre + (
                    seq![av[i as int].0] + keys_not_in(av.skip(i + 1), bv)));
                }
            },
        }
        i = i + 1;
    }
    proof {
        assert(av.skip(n as int) =~= Seq::<SpecEntry>::empty());
        assert(views_of(out@) + Seq::<Seq<u8>>::empty() =~= views_of(out@));
    }
    out
}

/// Sort byte strings ascending and keep at most `limit`.
fn sort_truncate(v: Vec<Vec<u8>>, limit: usize) -> (r: Vec<Vec<u8>>)
    ensures
        r@.len() == min_int(limit as int, v@.len() as int),
        forall|i: int, j: int|
            0 <= i < j < r@.len() ==> lex_le(#[trigger] r@[i]@, #[trigger] r@[j]@),
        forall|i: int| 0 <= i < r@.len() ==> views_of(v@).contains(#[trigger] r@[i]@),
        crate::order::spec_sorted_prefix(views_of(v@), limit as int, views_of(r@)),
{
    let ghost vv = views_of(v@);
    let r = crate::order::sort_and_truncate_bytes(v, limit);
    proof {
        assert forall|i: int, j: int| 0 <= i < j < r@.len() implies lex_le(
            #[trigger] r@[i]@,
            #[trigger] r@[j]@,
        ) by {
            assert(views_of(r@)[i] == r@[i]@ && views_of(r@)[j] == r@[j]@);
        }
        assert forall|i: int| 0 <= i < r@.len() implies vv.contains(#[trigger] r@[i]@) by {
            assert(views_of(r@)[i] == r@[i]@);
        }
    }
    r
}
/// A key list has pairwise-distinct keys.
pub open spec fn spec_keys_unique(ev: Seq<SpecEntry>) -> bool {
    forall|i: int, j: int| 0 <= i < j < ev.len() ==> #[trigger] ev[i].0 != #[trigger] ev[j].0
}

/// The build walk only ever produces maps with distinct keys.
pub proof fn lemma_walk_unique(rs: Seq<(u64, Seq<Seq<u8>>)>, ki: int, acc: Seq<SpecEntry>)
    requires
        spec_keys_unique(acc),
        spec_key_walk(rs, ki, acc) is Ok,
    ensures
        spec_keys_unique(spec_key_walk(rs, ki, acc)->Ok_0),
    decreases rs.len(),
{
    if rs.len() > 0 {
        let (num, rec) = rs[0];
        if spec_is_blank_record(rec) {
            lemma_walk_unique(rs.drop_first(), ki, acc);
        } else {
            let key = spec_key_of(rec, ki);
            if key.len() > 0 && spec_find_key(acc, key) < 0 {
                lemma_find_key_props(acc, key);
                let acc2 = acc.push((key, num, rec));
                assert forall|i: int, j: int|
                    0 <= i < j < acc2.len() implies #[trigger] acc2[i].0 != #[trigger] acc2[j].0 by {
                    if j == acc2.len() - 1 {
                        assert(acc2[i] == acc[i]);
                    }
                }
                lemma_walk_unique(rs.drop_first(), ki, acc2);
            }
        }
    }
}

/// One aligned row agrees with both maps: its key is found on each side
/// and carries that side's record number and fields.
pub open spec fn spec_row_ok(oe: Seq<SpecEntry>, ne: Seq<SpecEntry>, row: KeyAlignedRow) -> bool {
    let at_o = spec_find_key(oe, row.key@);
    let at_n = spec_find_key(ne, row.key@);
    &&& at_o >= 0
    &&& at_n >= 0
    &&& row.old.record_number == oe[at_o].1
    &&& views_of(row.old.fields@) == oe[at_o].2
    &&& row.new.record_number == ne[at_n].1
    &&& views_of(row.new.fields@) == ne[at_n].2
}

/// Build the key-set-mismatch error from the two difference lists.
fn mismatch_error(missing: Vec<Vec<u8>>, extra: Vec<Vec<u8>>) -> (e: KeyJoinError)
    ensures
        e matches KeyJoinError::KeySetMismatch {
            missing_count,
            extra_count,
            missing_samples,
            extra_samples,
        } && {
            &&& missing_count as int == missing@.len()
            &&& extra_count as int == extra@.len()
            &&& missing_samples@.len() == min_int(10, missing@.len() as int)
            &&& extra_samples@.len() == min_int(10, extra@.len() as int)
            &&& forall|i: int, j: int|
                0 <= i < j < missing_samples@.len() ==> lex_le(
                    #[trigger] missing_samples@[i]@,
                    #[trigger] missing_samples@[j]@,
                )
            &&& forall|i: int, j: int|
                0 <= i < j < extra_samples@.len() ==> lex_le(
                    #[trigger] extra_samples@[i]@,
                    #[trigger] extra_samples@[j]@,
                )
            &&& forall|i: int|
                0 <= i < missing_samples@.len() ==> views_of(missing@).contains(
                    #[trigger] missing_samples@[i]@,
                )
            &&& forall|i: int|
                0 <= i < extra_samples@.len() ==> views_of(extra@).contains(
                    #[trigger] extra_samples@[i]@,
                )
            &&& crate::order::spec_sorted_prefix(views_of(missing@), 10, views_of(missing_samples@))
            &&& crate::order::spec_sorted_prefix(views_of(extra@), 10, views_of(extra_samples@))
        },
{
    let missing_count = missing.len();
    let extra_count = extra.len();
    let missing_samples = sort_truncate(missing, 10);
    let extra_samples = sort_truncate(extra, 10);
    KeyJoinError::KeySetMismatch { missing_count, extra_count, missing_samples, extra_samples }
}

/// The shape of a key-set-mismatch report against the two entry lists.
pub open spec fn spec_mismatch_report(oe: Seq<SpecEntry>, ne: Seq<SpecEntry>, e: KeyJoinError) -> bool {
    e matches KeyJoinError::KeySetMismatch {
        missing_count,
        extra_count,
        missing_samples,
        extra_samples,
    } && {
        &&& missing_count + extra_count > 0
        &&& missing_count as int == keys_not_in(oe, ne).len()
        &&& extra_count as int == keys_not_in(ne, oe).len()
        &&& missing_samples@.len() == min_int(10, missing_count as int)
        &&& extra_samples@.len() == min_int(10, extra_count as int)
        &&& forall|i: int, j: int|
            0 <= i < j < missing_samples@.len() ==> lex_le(
                #[trigger] missing_samples@[i]@,
                #[trigger] missing_samples@[j]@,
            )
        &&& forall|i: int, j: int|
            0 <= i < j < extra_samples@.len() ==> lex_le(
                #[trigger] extra_samples@[i]@,
                #[trigger] extra_samples@[j]@,
            )
        &&& forall|i: int|
            0 <= i < missing_samples@.len() ==> keys_not_in(oe, ne).contains(
                #[trigger] missing_samples@[i]@,
            )
        &&& forall|i: int|
            0 <= i < extra_samples@.len() ==> keys_not_in(ne, oe).contains(
                #[trigger] extra_samples@[i]@,
            )
        &&& crate::order::spec_sorted_prefix(keys_not_in(oe, ne), 10, views_of(missing_samples@))
        &&& crate::order::spec_sorted_prefix(keys_not_in(ne, oe), 10, views_of(extra_samples@))
    }
}

/// Join two key maps by exact key match: ascending key order when the key
/// sets agree, a mismatch report otherwise.
#[verifier::rlimit(100)]
#[verifier::spinoff_prover]
pub fn join_key_maps(old_map: KeyMap, new_map: KeyMap) -> (r: Result<
    Vec<KeyAlignedRow>,
    KeyJoinError,
>)
    requires
        spec_keys_unique(entry_views(old_map.entries@)),
        spec_keys_unique(entry_views(new_map.entries@)),
    ensures
        ({
            let oe = entry_views(old_map.entries@);
            let ne = entry_views(new_map.entries@);
            match r {
                Ok(rows) => {
                    &&& rows@.len() == oe.len()
                    &&& forall|i: int, j: int|
                        0 <= i < j < rows@.len() ==> lex_lt(
                            #[trigger] rows@[i].key@,
                            #[trigger] rows@[j].key@,
                        )
                    &&& forall|i: int|
                        0 <= i < rows@.len() ==> spec_row_ok(oe, ne, #[trigger] rows@[i])
                    &&& forall|k: int|
                        0 <= k < oe.len() ==> exists|i: int|
                            0 <= i < rows@.len() && #[trigger] oe[k].0 == rows@[i].key@
                },
                Err(e) => spec_mismatch_report(oe, ne, e),
            }
        }),
{
    let ghost oe = entry_views(old_map.entries@);
    let ghost ne = entry_views(new_map.entries@);
    let missing = keys_not_in_exec(&old_map.entries, &new_map.entries);
    let extra = keys_not_in_exec(&new_map.entries, &old_map.entries);
    if missing.len() > 0 || extra.len() > 0 {
        let ghost mv = views_of(missing@);
        let ghost xv = views_of(extra@);
        let e = mismatch_error(missing, extra);
        proof {
            assert(mv == keys_not_in(oe, ne));
            assert(xv == keys_not_in(ne, oe));
            assert(spec_mismatch_report(oe, ne, e));
        }
        return Err(e);
    }
    // equal key sets: emit rows in ascending key order
    let mut key_vec: Vec<Vec<u8>> = Vec::new();
    let n0 = old_map.entries.len();
    let mut q: usize = 0;
    while q < n0
        invariant
            0 <= q <= n0,
            n0 == old_map.entries@.len(),
            oe == entry_views(old_map.entries@),
            key_vec@.len() == q,
            forall|j: int| 0 <= j < q ==> #[trigger] key_vec@[j]@ == oe[j].0,
        decreases n0 - q,
    {
        proof {
            assert(oe[q as int].0 == old_map.entries@[q as int].0@);
        }
        key_vec.push(crate::bytes::to_vec_bytes(old_map.entries[q].0.as_slice()));
        q = q + 1;
    }
    proof {
        assert(views_of(key_vec@) =~= keys_of(oe));
    }
    let sorted = crate::bytes::sort_byte_vecs(key_vec);
    let ghost sv = views_of(sorted@);
    proof {
        broadcast use vstd::seq_lib::group_to_multiset_ensures;

        assert(sv.to_multiset() == keys_of(oe).to_multiset());
        assert(sv.len() == oe.len());
        // distinct keys make the sorted order strict
        assert forall|i: int, j: int| 0 <= i < j < sv.len() implies lex_lt(
            #[trigger] sv[i],
            #[trigger] sv[j],
        ) by {
            lemma_sorted_unique_strict(sv, keys_of(oe), i, j);
        }
    }
    let m = sorted.len();
    let mut rows: Vec<KeyAlignedRow> = Vec::new();
    let mut t: usize = 0;
    while t < m
        invariant
            0 <= t <= m,
            m == sorted@.len(),
            oe == entry_views(old_map.entries@),
            ne == entry_views(new_map.entries@),
            sv == views_of(sorted@),
            sv.to_multiset() == keys_of(oe).to_multiset(),
            keys_not_in(oe, ne).len() == 0,
            forall|i: int, j: int| 0 <= i < j < sv.len() ==> lex_lt(#[trigger] sv[i], #[trigger] sv[j]),
            rows@.len() == t,
            forall|i: int| 0 <= i < t ==> #[trigger] rows@[i].key@ == sv[i],
            forall|i: int| 0 <= i < rows@.len() ==> spec_row_ok(oe, ne, #[trigger] rows@[i]),
        decreases m - t,
    {
        proof {
            assert(sv[t as int] == sorted@[t as int]@);
            broadcast use vstd::seq_lib::group_to_multiset_ensures;

            assert(sv.contains(sv[t as int]));
            assert(keys_of(oe).to_multiset().count(sv[t as int]) > 0);
            assert(keys_of(oe).contains(sv[t as int]));
            let w = choose|w: int| 0 <= w < keys_of(oe).len() && keys_of(oe)[w] == sv[t as int];
            assert(oe[w].0 == sv[t as int]);
            lemma_find_key_props(oe, sv[t as int]);
            lemma_not_in_means_found(oe, ne, w);
            lemma_find_key_props(ne, sv[t as int]);
        }
        let key = crate::bytes::to_vec_bytes(sorted[t].as_slice());
        let at_o = match find_key_exec(&old_map.entries, key.as_slice()) {
            Some(i) => i,
            None => {
                proof {
                    assert(false);
                }
                0
            },
        };
        let at_n = match find_key_exec(&new_map.entries, key.as_slice()) {
            Some(i) => i,
            None => {
                proof {
                    assert(false);
                }
                0
            },
        };
        proof {
            assert(entry_views(old_map.entries@)[at_o as int].1
                == old_map.entries@[at_o as int].1.record_number);
            assert(entry_views(old_map.entries@)[at_o as int].2 == views_of(
                old_map.entries@[at_o as int].1.fields@,
            ));
            assert(entry_views(new_map.entries@)[at_n as int].1
                == new_map.entries@[at_n as int].1.record_number);
            assert(entry_views(new_map.entries@)[at_n as int].2 == views_of(
                new_map.entries@[at_n as int].1.fields@,
            ));
        }
        let old_entry = KeyEntry {
            record_number: old_map.entries[at_o].1.record_number,
            fields: clone_record(&old_map.entries[at_o].1.fields),
        };
        let new_entry = KeyEntry {
            record_number: new_map.entries[at_n].1.record_number,
            fields: clone_record(&new_map.entries[at_n].1.fields),
        };
        rows.push(KeyAlignedRow { key, old: old_entry, new: new_entry });
        t = t + 1;
    }
    proof {
        assert(rows@.len() == oe.len());
        assert forall|i: int, j: int| 0 <= i < j < rows@.len() implies lex_lt(
            #[trigger] rows@[i].key@,
            #[trigger] rows@[j].key@,
        ) by {
            assert(rows@[i].key@ == sv[i]);
            assert(rows@[j].key@ == sv[j]);
        }
        assert forall|k: int| 0 <= k < oe.len() implies exists|i: int|
            0 <= i < rows@.len() && #[trigger] oe[k].0 == rows@[i].key@ by {
            broadcast use vstd::seq_lib::group_to_multiset_ensures;

            assert(keys_of(oe)[k] == oe[k].0);
            assert(keys_of(oe).contains(oe[k].0));
            assert(sv.to_multiset().count(oe[k].0) > 0);
            assert(sv.contains(oe[k].0));
            let w = choose|w: int| 0 <= w < sv.len() && sv[w] == oe[k].0;
            assert(rows@[w].key@ == sv[w]);
        }
    }
    Ok(rows)
}

/// When no key of `a` is missing from `b`, every index of `a` finds its
/// key in `b`.
proof fn lemma_not_in_means_found(a: Seq<SpecEntry>, b: Seq<SpecEntry>, w: int)
    requires
        keys_not_in(a, b).len() == 0,
        0 <= w < a.len(),
    ensures
        spec_find_key(b, a[w].0) >= 0,
    decreases a.len(),
{
    if a.len() > 0 {
        if w == 0 {
            if spec_find_key(b, a[0].0) < 0 {
                assert(keys_not_in(a, b).len() > 0);
            }
        } else {
            assert(keys_not_in(a.drop_first(), b).len() <= keys_not_in(a, b).len());
            lemma_not_in_means_found(a.drop_first(), b, w - 1);
            assert(a.drop_first()[w - 1] == a[w]);
        }
    }
}


/// In a non-strictly sorted list whose multiset matches a duplicate-free
/// list, any two positions hold distinct values, so the order is strict.
proof fn lemma_sorted_unique_strict(sv: Seq<Seq<u8>>, orig: Seq<Seq<u8>>, i: int, j: int)
    requires
        sv.to_multiset() == orig.to_multiset(),
        forall|a: int, b: int| 0 <= a < b < orig.len() ==> #[trigger] orig[a] != #[trigger] orig[b],
        forall|a: int, b: int| 0 <= a < b < sv.len() ==> lex_le(#[trigger] sv[a], #[trigger] sv[b]),
        0 <= i < j < sv.len(),
    ensures
        lex_lt(sv[i], sv[j]),
{
    broadcast use vstd::seq_lib::group_to_multiset_ensures;

    if sv[i] == sv[j] {
        let x = sv[i];
        assert(sv.remove(i).to_multiset() =~= sv.to_multiset().remove(x));
        assert(sv.remove(i)[j - 1] == sv[j]);
        assert(sv.remove(i).contains(x));
        assert(sv.remove(i).to_multiset().count(x) > 0);
        assert(sv.to_multiset().count(x) >= 2);
        lemma_unique_counts(orig, x);
    }
    crate::bytes::lemma_lex_trichotomy(sv[i], sv[j]);
}

/// A duplicate-free list counts every value at most once.
proof fn lemma_unique_counts(orig: Seq<Seq<u8>>, x: Seq<u8>)
    requires
        forall|a: int, b: int| 0 <= a < b < orig.len() ==> #[trigger] orig[a] != #[trigger] orig[b],
    ensures
        orig.to_multiset().count(x) <= 1,
    decreases orig.len(),
{
    broadcast use vstd::seq_lib::group_to_multiset_ensures;

    if orig.len() > 0 {
        let t = orig.drop_last();
        assert(orig =~= t.push(orig[orig.len() - 1]));
        assert forall|a: int, b: int| 0 <= a < b < t.len() implies #[trigger] t[a]
            != #[trigger] t[b] by {
            assert(t[a] == orig[a] && t[b] == orig[b]);
        }
        lemma_unique_counts(t, x);
        assert(orig.to_multiset() =~= t.to_multiset().insert(orig[orig.len() - 1]));
        if orig[orig.len() - 1] == x {
            if t.to_multiset().count(x) > 0 {
                assert(t.contains(x));
                let w = choose|w: int| 0 <= w < t.len() && t[w] == x;
                assert(orig[w] == x);
            }
        }
    }
}

} // verus!
