use rvl::columns::{detect_numeric_columns, intersect_headers, ColumnTypingError, CommonColumn, RowRef, Side};
use rvl::key_discovery::{discover_key_candidates, CandidateKind};
use rvl::key_join::{build_key_map, join_key_maps, KeyJoinError};
use rvl::no_numeric::{ensure_numeric_columns, sample_column_names};
use rvl::order::sort_and_truncate_bytes;
use rvl::row_order::{row_order_aligner, RowOrderError};
use rvl::shuffle::detect_shuffle;

fn record(fields: &[&[u8]]) -> Vec<Vec<u8>> {
    fields.iter().map(|f| f.to_vec()).collect()
}

fn names(ns: &[&[u8]]) -> Vec<Vec<u8>> {
    ns.iter().map(|n| n.to_vec()).collect()
}

fn column(name: &str, old_index: usize, new_index: usize) -> CommonColumn {
    CommonColumn { name: name.as_bytes().to_vec(), old_index, new_index }
}

fn rows_of(pairs: Vec<(u64, Vec<Vec<u8>>, Vec<Vec<u8>>)>) -> Vec<(RowRef, Vec<Vec<u8>>, Vec<Vec<u8>>)> {
    pairs
        .into_iter()
        .map(|(n, o, nw)| (RowRef { old_record: n, new_record: n, key: None }, o, nw))
        .collect()
}

#[test]
fn build_key_map_detects_empty_key() {
    let records = vec![(1, record(&[b"", b"1"]))];
    let err = build_key_map(records, 0).expect_err("empty key");
    assert_eq!(err, KeyJoinError::EmptyKey { record_number: 1 });
}

#[test]
fn build_key_map_detects_duplicate_key() {
    let records = vec![(1, record(&[b"A", b"1"])), (2, record(&[b"A", b"2"]))];
    let err = build_key_map(records, 0).expect_err("duplicate");
    assert_eq!(
        err,
        KeyJoinError::DuplicateKey { key: b"A".to_vec(), first_record: 1, second_record: 2 }
    );
}

#[test]
fn build_key_map_skips_blank_records() {
    let records = vec![(1, record(&[b"", b""])), (2, record(&[b"A", b"1"]))];
    let map = build_key_map(records, 0).expect("map");
    assert_eq!(map.entries.len(), 1);
    assert_eq!(map.entries[0].0, b"A".to_vec());
}

#[test]
fn join_key_maps_reports_mismatch() {
    let old = build_key_map(vec![(1, record(&[b"A"])), (2, record(&[b"B"]))], 0).unwrap();
    let new = build_key_map(vec![(1, record(&[b"A"])), (2, record(&[b"C"]))], 0).unwrap();
    let err = join_key_maps(old, new).expect_err("mismatch");
    match err {
        KeyJoinError::KeySetMismatch { missing_count, extra_count, missing_samples, extra_samples } => {
            assert_eq!(missing_count, 1);
            assert_eq!(extra_count, 1);
            assert_eq!(missing_samples, vec![b"B".to_vec()]);
            assert_eq!(extra_samples, vec![b"C".to_vec()]);
        }
        other => panic!("unexpected: {:?}", other),
    }
}

#[test]
fn join_key_maps_orders_by_key_bytes() {
    let old = build_key_map(vec![(1, record(&[b"b"])), (2, record(&[b"a"]))], 0).unwrap();
    let new = build_key_map(vec![(1, record(&[b"b"])), (2, record(&[b"a"]))], 0).unwrap();
    let joined = join_key_maps(old, new).expect("joined");
    assert_eq!(joined.len(), 2);
    assert_eq!(joined[0].key, b"a".to_vec());
    assert_eq!(joined[1].key, b"b".to_vec());
}

#[test]
fn discovers_perfect_then_joinable() {
    let old_headers = names(&[b"id", b"value"]);
    let new_headers = names(&[b"id", b"value"]);
    let old_rows = vec![record(&[b"a", b"1"]), record(&[b"b", b"2"])];
    let new_rows = vec![record(&[b"b", b"4"]), record(&[b"a", b"3"])];
    let candidates = discover_key_candidates(&old_headers, &new_headers, &old_rows, &new_rows);
    assert_eq!(candidates.len(), 2);
    assert_eq!(candidates[0].name, b"id".to_vec());
    assert_eq!(candidates[0].kind, CandidateKind::Perfect);
    assert_eq!(candidates[1].name, b"value".to_vec());
    assert_eq!(candidates[1].kind, CandidateKind::Joinable);
}

#[test]
fn rejects_empty_or_duplicate_keys() {
    let hs = names(&[b"id"]);
    let old_rows = vec![record(&[b"a"]), record(&[b" "])];
    let new_rows = vec![record(&[b"a"])];
    assert!(discover_key_candidates(&hs, &hs, &old_rows, &new_rows).is_empty());
    let old_rows = vec![record(&[b"a"]), record(&[b"a"])];
    let new_rows = vec![record(&[b"a"]), record(&[b"b"])];
    assert!(discover_key_candidates(&hs, &hs, &old_rows, &new_rows).is_empty());
}

#[test]
fn ignores_non_intersecting_headers() {
    let old_headers = names(&[b"id", b"a"]);
    let new_headers = names(&[b"id", b"b"]);
    let old_rows = vec![record(&[b"x", b"1"])];
    let new_rows = vec![record(&[b"x", b"2"])];
    let candidates = discover_key_candidates(&old_headers, &new_headers, &old_rows, &new_rows);
    assert_eq!(candidates.len(), 1);
    assert_eq!(candidates[0].name, b"id".to_vec());
}

#[test]
fn detects_reorder_for_perfect_key() {
    let old_headers = names(&[b"id", b"value"]);
    let new_headers = names(&[b"id", b"value"]);
    let old_rows = vec![record(&[b"a", b"1"]), record(&[b"b", b"2"])];
    let new_rows = vec![record(&[b"b", b"4"]), record(&[b"a", b"3"])];
    let detection = detect_shuffle(&old_headers, &new_headers, &old_rows, &new_rows);
    assert!(detection.reordered);
    assert_eq!(detection.suggested_keys, vec![b"id".to_vec(), b"value".to_vec()]);
}

#[test]
fn no_reorder_when_order_is_identical() {
    let hs = names(&[b"id"]);
    let old_rows = vec![record(&[b"a"]), record(&[b"b"])];
    let new_rows = vec![record(&[b"a"]), record(&[b"b"])];
    let detection = detect_shuffle(&hs, &hs, &old_rows, &new_rows);
    assert!(!detection.reordered);
    assert_eq!(detection.suggested_keys, vec![b"id".to_vec()]);
}

#[test]
fn returns_empty_suggestions_when_no_candidates() {
    let old_headers = names(&[b"a"]);
    let new_headers = names(&[b"b"]);
    let old_rows = vec![record(&[b"a"])];
    let new_rows = vec![record(&[b"a"])];
    let detection = detect_shuffle(&old_headers, &new_headers, &old_rows, &new_rows);
    assert!(!detection.reordered);
    assert!(detection.suggested_keys.is_empty());
}

#[test]
fn aligner_pairs_rows_with_1_based_row_ids() {
    let mut aligner = row_order_aligner(vec![10, 20], vec![11, 22]);
    let first = aligner.next().unwrap().unwrap();
    assert_eq!(first.row_id, 1);
    assert_eq!(first.old, 10);
    assert_eq!(first.new, 11);
    let second = aligner.next().unwrap().unwrap();
    assert_eq!(second.row_id, 2);
    assert_eq!(second.old, 20);
    assert_eq!(second.new, 22);
    assert!(aligner.next().is_none());
}

#[test]
fn aligner_detects_rowcount_mismatch_old_longer() {
    let mut aligner = row_order_aligner(vec![1, 2, 3], vec![9, 8]);
    assert!(aligner.next().unwrap().is_ok());
    assert!(aligner.next().unwrap().is_ok());
    let err = aligner.next().unwrap().unwrap_err();
    assert_eq!(err, RowOrderError { rows_old: 3, rows_new: 2 });
    assert!(aligner.next().is_none());
}

#[test]
fn aligner_detects_rowcount_mismatch_new_longer() {
    let mut aligner = row_order_aligner(vec![1], vec![9, 8, 7]);
    assert!(aligner.next().unwrap().is_ok());
    let err = aligner.next().unwrap().unwrap_err();
    assert_eq!(err, RowOrderError { rows_old: 1, rows_new: 3 });
    assert!(aligner.next().is_none());
}

#[test]
fn intersect_headers_excludes_key() {
    let old = names(&[b"id", b"a", b"b"]);
    let new = names(&[b"a", b"id", b"c"]);
    let key = b"id".to_vec();
    let intersection = intersect_headers(&old, &new, Some(&key));
    assert_eq!(intersection.common.len(), 1);
    assert_eq!(intersection.common[0].name, b"a".to_vec());
    assert_eq!(intersection.common[0].old_index, 1);
    assert_eq!(intersection.common[0].new_index, 0);
    assert_eq!(intersection.old_only, vec![b"b".to_vec()]);
    assert_eq!(intersection.new_only, vec![b"c".to_vec()]);
}

#[test]
fn numeric_column_detected() {
    let columns = vec![column("a", 0, 0)];
    let rows = rows_of(vec![
        (1, record(&[b"1"]), record(&[b"2"])),
        (2, record(&[b""]), record(&[b""])),
    ]);
    let numeric = detect_numeric_columns(&columns, &rows).expect("numeric");
    assert_eq!(numeric.len(), 1);
    assert_eq!(numeric[0].name, b"a".to_vec());
}

#[test]
fn non_numeric_column_is_ignored() {
    let columns = vec![column("a", 0, 0)];
    let rows = rows_of(vec![(1, record(&[b"foo"]), record(&[b"bar"]))]);
    let numeric = detect_numeric_columns(&columns, &rows).expect("ok");
    assert!(numeric.is_empty());
}

#[test]
fn mixed_types_numeric_then_text() {
    let columns = vec![column("a", 0, 0)];
    let rows = rows_of(vec![
        (1, record(&[b"1"]), record(&[b"2"])),
        (2, record(&[b"foo"]), record(&[b"bar"])),
    ]);
    let err = detect_numeric_columns(&columns, &rows).unwrap_err();
    match err {
        ColumnTypingError::MixedTypes(detail) => {
            assert_eq!(detail.row.old_record, 2);
            assert_eq!(detail.side, Side::Old);
            assert_eq!(detail.value, b"foo".to_vec());
        }
        _ => panic!("expected mixed types"),
    }
}

#[test]
fn mixed_types_text_then_numeric_reports_first_text() {
    let columns = vec![column("a", 0, 0)];
    let rows = rows_of(vec![
        (1, record(&[b"foo"]), record(&[b"bar"])),
        (2, record(&[b"1"]), record(&[b"2"])),
    ]);
    let err = detect_numeric_columns(&columns, &rows).unwrap_err();
    match err {
        ColumnTypingError::MixedTypes(detail) => {
            assert_eq!(detail.row.old_record, 1);
            assert_eq!(detail.side, Side::Old);
            assert_eq!(detail.value, b"foo".to_vec());
        }
        _ => panic!("expected mixed types"),
    }
}

#[test]
fn missingness_is_refused() {
    let columns = vec![column("a", 0, 0)];
    let rows = rows_of(vec![(7, record(&[b""]), record(&[b"9"]))]);
    let err = detect_numeric_columns(&columns, &rows).unwrap_err();
    match err {
        ColumnTypingError::Missingness(detail) => {
            assert_eq!(detail.row.old_record, 7);
            assert_eq!(detail.missing_side, Side::Old);
            assert_eq!(detail.present_value, b"9".to_vec());
        }
        _ => panic!("expected missingness"),
    }
}

#[test]
fn missing_vs_text_without_numeric_is_ignored() {
    let columns = vec![column("a", 0, 0)];
    let rows = rows_of(vec![
        (1, record(&[b""]), record(&[b"foo"])),
        (2, record(&[b""]), record(&[b"bar"])),
    ]);
    let numeric = detect_numeric_columns(&columns, &rows).expect("ok");
    assert!(numeric.is_empty());
}

#[test]
fn missing_vs_text_then_numeric_is_mixed_types() {
    let columns = vec![column("a", 0, 0)];
    let rows = rows_of(vec![
        (1, record(&[b""]), record(&[b"foo"])),
        (2, record(&[b"1"]), record(&[b"2"])),
    ]);
    let err = detect_numeric_columns(&columns, &rows).unwrap_err();
    match err {
        ColumnTypingError::MixedTypes(detail) => {
            assert_eq!(detail.row.old_record, 1);
            assert_eq!(detail.side, Side::New);
            assert_eq!(detail.value, b"foo".to_vec());
        }
        _ => panic!("expected mixed types"),
    }
}

#[test]
fn returns_error_when_no_numeric_columns() {
    let columns = names(&[b"b", b"a", b"c"]);
    let err = ensure_numeric_columns(0, columns).expect_err("no numeric");
    assert_eq!(err.columns_common, 3);
    assert_eq!(err.sample_columns, vec![b"a".to_vec(), b"b".to_vec(), b"c".to_vec()]);
}

#[test]
fn returns_ok_when_numeric_columns_exist() {
    assert!(ensure_numeric_columns(1, names(&[b"only"])).is_ok());
}

#[test]
fn sample_truncates_deterministically() {
    let columns = names(&[b"d", b"c", b"b", b"a"]);
    let sample = sample_column_names(columns, 2);
    assert_eq!(sample, vec![b"a".to_vec(), b"b".to_vec()]);
}

#[test]
fn sort_and_truncate_is_deterministic() {
    let items = vec![b"b".to_vec(), b"a".to_vec(), b"c".to_vec()];
    let out = sort_and_truncate_bytes(items, 2);
    assert_eq!(out, vec![b"a".to_vec(), b"b".to_vec()]);
}
