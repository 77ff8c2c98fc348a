use rvl::columns::{detect_numeric_columns, intersect_headers, RowRef};
use rvl::details::{FileSide, RerunPaths};
use rvl::heap::{Contributor, TopContributors};
use rvl::key_join::{build_key_map, join_key_maps};
use rvl::order::{CellId, RowId};
use rvl::pipeline::{build_cells, evaluate_cells, parse_side, CellValue};
use rvl::shuffle::detect_shuffle;
use rvl::json_out::{render_json, JsonContext, JsonContributor, JsonCounts, JsonVerdict};

fn paths() -> RerunPaths {
    RerunPaths { old: b"old.csv".to_vec(), new: b"new.csv".to_vec() }
}

fn parse_f(canon: &[u8]) -> f64 {
    std::str::from_utf8(canon).unwrap().parse::<f64>().unwrap()
}

/// The tolerance rule the surrounding binary applies per cell.
fn evaluate(canon_old: &[u8], canon_new: &[u8], tolerance: f64) -> CellValue {
    let old = parse_f(canon_old);
    let new = parse_f(canon_new);
    let delta = new - old;
    let abs = delta.abs();
    CellValue { delta_bits: delta.to_bits(), abs_bits: abs.to_bits(), exceeds: abs > tolerance }
}

fn keyed_cells(old_csv: &[u8], new_csv: &[u8], key: &[u8]) -> Vec<rvl::pipeline::CellEntry> {
    let p = paths();
    let old = parse_side(old_csv, FileSide::Old, None, &p).expect("old parses");
    let new = parse_side(new_csv, FileSide::New, None, &p).expect("new parses");
    let key_vec = key.to_vec();
    let inter = intersect_headers(&old.headers, &new.headers, Some(&key_vec));
    let oki = old.headers.iter().position(|h| h.as_slice() == key).expect("key in old");
    let nki = new.headers.iter().position(|h| h.as_slice() == key).expect("key in new");
    let old_map = build_key_map(
        old.records.into_iter().enumerate().map(|(i, r)| (i as u64 + 1, r)).collect(),
        oki,
    )
    .expect("old keys");
    let new_map = build_key_map(
        new.records.into_iter().enumerate().map(|(i, r)| (i as u64 + 1, r)).collect(),
        nki,
    )
    .expect("new keys");
    let rows_joined = join_key_maps(old_map, new_map).expect("join");
    let typed_rows: Vec<(RowRef, Vec<Vec<u8>>, Vec<Vec<u8>>)> = rows_joined
        .iter()
        .map(|r| {
            (
                RowRef {
                    old_record: r.old.record_number,
                    new_record: r.new.record_number,
                    key: Some(r.key.clone()),
                },
                r.old.fields.clone(),
                r.new.fields.clone(),
            )
        })
        .collect();
    let numeric = detect_numeric_columns(&inter.common, &typed_rows).expect("typing");
    let diff_rows: Vec<(RowId, Vec<Vec<u8>>, Vec<Vec<u8>>)> = rows_joined
        .into_iter()
        .map(|r| (RowId::Key(r.key), r.old.fields, r.new.fields))
        .collect();
    build_cells(&diff_rows, &numeric)
}

#[test]
fn basic_numeric_change_keyed() {
    let cells = keyed_cells(b"id,value\nA,1\nB,2\n", b"id,value\nA,6\nB,2\n", b"id");
    assert_eq!(cells.len(), 2);
    let values: Vec<CellValue> =
        cells.iter().map(|c| evaluate(&c.old_canon, &c.new_canon, 1e-9)).collect();
    let outcome = evaluate_cells(&cells, &values);
    assert_eq!(outcome.changed, 1);
    assert_eq!(outcome.top.len(), 1);
    assert_eq!(f64::from_bits(outcome.top[0].delta_bits), 5.0);
    assert_eq!(f64::from_bits(outcome.top[0].contribution_bits), 5.0);
    match &outcome.top[0].id.row_id {
        RowId::Key(k) => assert_eq!(k, &b"A".to_vec()),
        other => panic!("unexpected row id {:?}", other),
    }
    assert_eq!(outcome.top[0].id.column, b"value".to_vec());
    // the single contributor explains all of the change
    let total: f64 = values.iter().filter(|v| v.exceeds).map(|v| f64::from_bits(v.abs_bits)).sum();
    let covered: f64 = outcome.top.iter().map(|c| f64::from_bits(c.contribution_bits)).sum();
    assert_eq!(covered, total);
    assert!(covered / total >= 0.95);
}

#[test]
fn within_tolerance_is_no_real_change() {
    let cells = keyed_cells(b"id,x\n1,10\n", b"id,x\n1,10.0000000001\n", b"id");
    assert_eq!(cells.len(), 1);
    let values: Vec<CellValue> =
        cells.iter().map(|c| evaluate(&c.old_canon, &c.new_canon, 1e-9)).collect();
    let outcome = evaluate_cells(&cells, &values);
    assert_eq!(outcome.changed, 0);
    assert!(outcome.top.is_empty());
    let max_abs = f64::from_bits(outcome.max_abs_bits);
    assert!(max_abs > 0.0 && max_abs <= 1e-9);
}

#[test]
fn shuffle_under_perfect_key_needs_key() {
    let p = paths();
    let old = parse_side(b"id,v\na,1\nb,2\n", FileSide::Old, None, &p).expect("old");
    let new = parse_side(b"id,v\nb,3\na,4\n", FileSide::New, None, &p).expect("new");
    let detection = detect_shuffle(&old.headers, &new.headers, &old.records, &new.records);
    assert!(detection.reordered);
    assert_eq!(detection.suggested_keys, vec![b"id".to_vec(), b"v".to_vec()]);
}

#[test]
fn mixed_types_names_second_record() {
    let p = paths();
    let old = parse_side(b"id,c\nk1,10\nk2,oops\n", FileSide::Old, None, &p).expect("old");
    let new = parse_side(b"id,c\nk1,11\nk2,12\n", FileSide::New, None, &p).expect("new");
    let inter = intersect_headers(&old.headers, &new.headers, None);
    let rows: Vec<(RowRef, Vec<Vec<u8>>, Vec<Vec<u8>>)> = old
        .records
        .iter()
        .zip(new.records.iter())
        .enumerate()
        .map(|(i, (o, n))| {
            (
                RowRef { old_record: i as u64 + 1, new_record: i as u64 + 1, key: None },
                o.clone(),
                n.clone(),
            )
        })
        .collect();
    let err = detect_numeric_columns(&inter.common, &rows).expect_err("mixed");
    match err {
        rvl::columns::ColumnTypingError::MixedTypes(d) => {
            assert_eq!(d.row.old_record, 2);
            assert_eq!(d.column, b"c".to_vec());
            assert_eq!(d.value, b"oops".to_vec());
            assert_eq!(d.side, rvl::columns::Side::Old);
        }
        other => panic!("unexpected {:?}", other),
    }
}

fn contributor(label: &str, value: f64, tie: u64) -> Contributor {
    Contributor {
        id: CellId { row_id: RowId::RowIndex(tie as usize), column: label.as_bytes().to_vec() },
        delta_bits: value.to_bits(),
        contribution_bits: value.to_bits(),
        tie_break: tie,
    }
}

#[test]
fn topk_keeps_largest_contributions() {
    let mut top = TopContributors::new(2);
    top.push(contributor("a", 1.0, 1));
    top.push(contributor("b", 5.0, 2));
    top.push(contributor("c", 3.0, 3));
    let mut values: Vec<f64> =
        top.into_vec().into_iter().map(|c| f64::from_bits(c.contribution_bits)).collect();
    values.sort_by(|a, b| a.total_cmp(b));
    assert_eq!(values, vec![3.0, 5.0]);
}

#[test]
fn topk_tie_break_keeps_earlier_entry() {
    let mut top = TopContributors::new(1);
    top.push(contributor("first", 2.0, 1));
    top.push(contributor("second", 2.0, 2));
    let kept = top.into_vec();
    assert_eq!(kept.len(), 1);
    assert_eq!(kept[0].id.column, b"first".to_vec());
}

#[test]
fn diffuse_change_below_threshold() {
    // with only two retained of 10, 5, 3 the coverage is 15/18
    let mut top = TopContributors::new(2);
    top.push(contributor("a", 10.0, 1));
    top.push(contributor("b", 5.0, 2));
    top.push(contributor("c", 3.0, 3));
    let total: f64 = 10.0 + 5.0 + 3.0;
    let covered: f64 =
        top.into_vec().into_iter().map(|c| f64::from_bits(c.contribution_bits)).sum();
    let coverage = covered / total;
    assert!((coverage - 15.0 / 18.0).abs() < 1e-12);
    assert!(coverage < 0.9);
}

#[test]
fn identical_inputs_have_zero_deltas() {
    let data = b"id,value\nA,1\nB,2\n";
    let cells = keyed_cells(data, data, b"id");
    for c in &cells {
        assert_eq!(c.old_canon, c.new_canon);
        let v = evaluate(&c.old_canon, &c.new_canon, 0.0);
        assert_eq!(f64::from_bits(v.abs_bits), 0.0);
        assert!(!v.exceeds);
    }
    let values: Vec<CellValue> =
        cells.iter().map(|c| evaluate(&c.old_canon, &c.new_canon, 0.0)).collect();
    let outcome = evaluate_cells(&cells, &values);
    assert_eq!(outcome.changed, 0);
    assert_eq!(f64::from_bits(outcome.max_abs_bits), 0.0);
}

#[test]
fn deterministic_cells_across_runs() {
    let old = b"id,value\nA,1\nB,2\n";
    let new = b"id,value\nA,6\nB,2\n";
    let first = keyed_cells(old, new, b"id");
    let second = keyed_cells(old, new, b"id");
    assert_eq!(first.len(), second.len());
    for (a, b) in first.iter().zip(second.iter()) {
        assert_eq!(a.old_canon, b.old_canon);
        assert_eq!(a.new_canon, b.new_canon);
        assert_eq!(a.id.column, b.id.column);
    }
}

#[test]
fn parses_plain_numbers() {
    for (txt, want) in [
        (b"123".as_slice(), 123.0),
        (b"-123", -123.0),
        (b"+123", 123.0),
        (b"123.45", 123.45),
        (b"-123.45", -123.45),
        (b"1e6", 1e6),
        (b"-1.2E-3", -1.2e-3),
    ] {
        let canon = rvl::numeric::canonical_numeric(txt).expect("numeric");
        assert_eq!(parse_f(&canon), want, "{:?}", txt);
    }
}

#[test]
fn parses_thousands_separators() {
    for (txt, want) in [
        (b"1,234".as_slice(), 1234.0),
        (b"-1,234", -1234.0),
        (b"+1,234", 1234.0),
        (b"1,234,567.89", 1234567.89),
        (b"-1,234,567.89", -1234567.89),
    ] {
        let canon = rvl::numeric::canonical_numeric(txt).expect("numeric");
        assert_eq!(parse_f(&canon), want, "{:?}", txt);
    }
}

#[test]
fn parses_currency_prefix() {
    for (txt, want) in [
        (b"$123.45".as_slice(), 123.45),
        (b"$1,234.56", 1234.56),
        (b"-$1,234.56", -1234.56),
        (b"$-1,234.56", -1234.56),
        (b"+$1,234.56", 1234.56),
        (b"$+1,234.56", 1234.56),
    ] {
        let canon = rvl::numeric::canonical_numeric(txt).expect("numeric");
        assert_eq!(parse_f(&canon), want, "{:?}", txt);
    }
}

#[test]
fn parses_accounting_parentheses() {
    for (txt, want) in [
        (b"(123.45)".as_slice(), -123.45),
        (b"(1,234.56)", -1234.56),
        (b"($1,234.56)", -1234.56),
        (b"($-1,234.56)", -1234.56),
    ] {
        let canon = rvl::numeric::canonical_numeric(txt).expect("numeric");
        assert_eq!(parse_f(&canon), want, "{:?}", txt);
    }
}

#[test]
fn rejects_invalid_commas() {
    for txt in [b"12,34".as_slice(), b"1,23,456", b"1,234,56.78", b",123", b"123,"] {
        assert!(rvl::numeric::canonical_numeric(txt).is_none(), "{:?}", txt);
    }
}

#[test]
fn rejects_invalid_tokens() {
    for txt in [
        b"".as_slice(),
        b"$",
        b"sep=,",
        b"1,234.5.6",
        b"+$-1",
        b"--1",
        b"NaN",
        b"inf",
        b"+inf",
        b"-inf",
        b"1e400",
    ] {
        assert!(rvl::numeric::canonical_numeric(txt).is_none(), "{:?}", txt);
    }
}

#[test]
fn trims_ascii_whitespace() {
    assert_eq!(parse_f(&rvl::numeric::canonical_numeric(b"  123  ").unwrap()), 123.0);
    assert_eq!(parse_f(&rvl::numeric::canonical_numeric(b"\t$1,234.00\t").unwrap()), 1234.0);
}

#[test]
fn json_output_round_trips() {
    let ctx = JsonContext {
        old_path: b"old.csv".to_vec(),
        new_path: b"new.csv".to_vec(),
        key_column: Some(b"id".to_vec()),
        dialect_old: Some(rvl::human::DialectReceipt { delimiter: b',', quote: b'"', escape: None }),
        dialect_new: Some(rvl::human::DialectReceipt { delimiter: b',', quote: b'"', escape: None }),
        threshold_txt: serde_json::to_string(&0.95f64).unwrap().into_bytes(),
        tolerance_txt: serde_json::to_string(&1e-9f64).unwrap().into_bytes(),
        counts: JsonCounts {
            rows_old: Some(2),
            rows_new: Some(2),
            rows_aligned: Some(2),
            columns_old: Some(1),
            columns_new: Some(1),
            columns_common: Some(1),
            columns_old_only: Some(0),
            columns_new_only: Some(0),
            numeric_columns: Some(1),
            numeric_cells_checked: Some(2),
            numeric_cells_changed: Some(1),
        },
        total_change_txt: Some(b"5.0".to_vec()),
        max_abs_delta_txt: Some(b"5.0".to_vec()),
        top_k_coverage_txt: Some(b"1.0".to_vec()),
    };
    let contributors = vec![JsonContributor {
        row_id: b"A".to_vec(),
        column: b"value".to_vec(),
        old_txt: b"1.0".to_vec(),
        new_txt: b"6.0".to_vec(),
        delta_txt: b"5.0".to_vec(),
        contribution_txt: b"5.0".to_vec(),
        share_txt: b"1.0".to_vec(),
        cumulative_txt: b"1.0".to_vec(),
    }];
    let out = render_json(&ctx, &JsonVerdict::RealChange(contributors));
    let text = String::from_utf8(out).expect("utf8 json");
    let v: serde_json::Value = serde_json::from_str(&text).expect("valid json");
    assert_eq!(v["version"], "rvl.v0");
    assert_eq!(v["outcome"], "REAL_CHANGE");
    assert_eq!(v["alignment"]["mode"], "key");
    assert_eq!(v["alignment"]["key_column"], "u8:id");
    assert_eq!(v["limits"]["max_contributors"], 25);
    let cs = v["contributors"].as_array().expect("array");
    assert_eq!(cs.len(), 1);
    assert_eq!(cs[0]["row_id"], "u8:A");
    assert_eq!(cs[0]["column"], "u8:value");
    // cumulative share is monotone and reaches at least the threshold
    let mut last = 0.0f64;
    for c in cs {
        let cum = c["cumulative_share"].as_f64().unwrap();
        assert!(cum >= last);
        last = cum;
    }
    assert!(last >= v["threshold"].as_f64().unwrap());
    assert!(v["refusal"].is_null());
}

#[test]
fn coverage_decision_explainable_at_first_crossing() {
    let cum: Vec<u64> = vec![0.5f64.to_bits(), 0.9f64.to_bits(), 0.95f64.to_bits()];
    match rvl::pipeline::evaluate_coverage(&cum, true, 0.8f64.to_bits()) {
        rvl::pipeline::CoverageDecision::Explainable { cutoff, coverage_bits } => {
            assert_eq!(cutoff, 2);
            assert_eq!(coverage_bits, 0.9f64.to_bits());
        }
        other => panic!("expected explainable, got {other:?}"),
    }
}

#[test]
fn coverage_decision_diffuse_below_threshold() {
    let cum: Vec<u64> = vec![0.2f64.to_bits(), 0.6f64.to_bits()];
    match rvl::pipeline::evaluate_coverage(&cum, true, 0.8f64.to_bits()) {
        rvl::pipeline::CoverageDecision::Diffuse { top_k_coverage_bits } => {
            assert_eq!(top_k_coverage_bits, 0.6f64.to_bits());
        }
        other => panic!("expected diffuse, got {other:?}"),
    }
}

#[test]
fn coverage_decision_no_change_without_positive_total() {
    let cum: Vec<u64> = vec![0.9f64.to_bits()];
    let r = rvl::pipeline::evaluate_coverage(&cum, false, 0.8f64.to_bits());
    assert_eq!(r, rvl::pipeline::CoverageDecision::NoChange);
}

#[test]
fn csv_parse_refusal_reports_fault_line() {
    let p = RerunPaths { old: b"old.csv".to_vec(), new: b"new.csv".to_vec() };
    let r = parse_side(b"a,b\n\"x\" y,2\n", FileSide::Old, Some(b','), &p);
    match r {
        Err((code, detail)) => {
            assert_eq!(code, rvl::codes::RefusalCode::CsvParse);
            match detail.kind {
                rvl::details::RefusalKind::CsvParse { line, column, .. } => {
                    assert_eq!(line, Some(2));
                    assert_eq!(column, None);
                }
                other => panic!("expected csv parse kind, got {other:?}"),
            }
        }
        Ok(_) => panic!("expected a parse refusal"),
    }
}
