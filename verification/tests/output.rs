use rvl::codes::RefusalCode;
use rvl::details::{FileSide, RefusalDetail, RefusalKind, RerunPaths};
use rvl::human::{
    render_no_real_body, render_real_no_real_header, render_refusal_body, Alignment,
    CheckedCounts, ColumnCounts, DialectReceipt, HumanHeader, NoRealBody, RefusalBody, Settings,
};

fn paths() -> RerunPaths {
    RerunPaths { old: b"old.csv".to_vec(), new: b"new.csv".to_vec() }
}

fn settings() -> Settings {
    Settings { threshold_pct: b"95.0%".to_vec(), tolerance_txt: b"1e-9".to_vec() }
}

#[test]
fn renders_real_header_lines() {
    let ctx = HumanHeader {
        old_name: b"old.csv".to_vec(),
        new_name: b"new.csv".to_vec(),
        alignment: Alignment::Key { column: b"id".to_vec() },
        columns: ColumnCounts { common: 15, old_only: 2, new_only: 1 },
        checked: CheckedCounts { rows: 4183, numeric_columns: 12, cells: 50196 },
        dialect_old: DialectReceipt { delimiter: b',', quote: b'"', escape: None },
        dialect_new: DialectReceipt { delimiter: b',', quote: b'"', escape: None },
        settings: settings(),
    };
    let lines = render_real_no_real_header(&ctx);
    assert_eq!(lines[0], b"Compared: old.csv -> new.csv");
    assert_eq!(lines[1], b"Alignment: key=id");
    assert_eq!(lines[2], b"Columns: common=15 old_only=2 new_only=1");
    assert_eq!(lines[3], b"Checked: 4,183 rows, 12 numeric columns (50,196 cells)");
    assert_eq!(lines[4], b"Dialect(old): delimiter=, quote=\" escape=none");
    assert_eq!(lines[5], b"Dialect(new): delimiter=, quote=\" escape=none");
    assert_eq!(lines[6], b"Ranking: abs(delta) (unscaled)");
    assert_eq!(lines[7], b"Settings: threshold=95.0% tolerance=1e-9");
}

#[test]
fn renders_key_dup_example() {
    let detail = RefusalDetail::with_default_next(
        RefusalKind::KeyDup { file: FileSide::Old, record: 184, key_value: b"A123".to_vec() },
        &paths(),
    );
    let ctx = RefusalBody {
        code: RefusalCode::KeyDup,
        detail,
        old_name: b"old.csv".to_vec(),
        new_name: b"new.csv".to_vec(),
    };
    let lines = render_refusal_body(&ctx);
    assert_eq!(lines[0], b"Cannot produce a verdict.");
    assert_eq!(lines[1], b"Reason (E_KEY_DUP): duplicate key values.");
    assert_eq!(lines[2], b"Example: old.csv data record 184 duplicates key \"A123\".");
    assert!(lines[3].starts_with(b"Next:"));
}

#[test]
fn renders_diffuse_example() {
    let detail = RefusalDetail::with_default_next(
        RefusalKind::Diffuse {
            top_k_coverage_pct: b"80.0%".to_vec(),
            threshold_pct: b"95.0%".to_vec(),
        },
        &paths(),
    );
    let ctx = RefusalBody {
        code: RefusalCode::Diffuse,
        detail,
        old_name: b"old.csv".to_vec(),
        new_name: b"new.csv".to_vec(),
    };
    let lines = render_refusal_body(&ctx);
    assert_eq!(lines[0], b"Cannot produce a verdict.");
    assert_eq!(lines[1], b"Reason (E_DIFFUSE): diffuse change below coverage threshold.");
    assert_eq!(lines[2], b"Example: top_k_coverage=80.0% threshold=95.0%.");
    assert_eq!(lines[3], b"Next: rvl old.csv new.csv --threshold 0.80");
}

#[test]
fn renders_no_real_body_lines() {
    let ctx = NoRealBody { max_abs_delta_txt: b"7e-10".to_vec(), tolerance_txt: b"1e-9".to_vec() };
    let lines = render_no_real_body(&ctx);
    assert_eq!(lines[0], b"Max abs delta: 7e-10 (<= tolerance 1e-9).");
    assert_eq!(lines[1], b"No numeric deltas above tolerance in common numeric columns.");
}

#[test]
fn next_step_for_key_uses_encoded_identifier() {
    let detail = RefusalDetail::with_default_next(
        RefusalKind::NoKey { key_column: b"id".to_vec() },
        &paths(),
    );
    assert_eq!(detail.next, b"rvl old.csv new.csv --key u8:id");
}

#[test]
fn refusal_json_has_sorted_detail_keys() {
    let ctx = rvl::json_out::JsonContext {
        old_path: b"old.csv".to_vec(),
        new_path: b"new.csv".to_vec(),
        key_column: None,
        dialect_old: None,
        dialect_new: None,
        threshold_txt: b"0.95".to_vec(),
        tolerance_txt: b"1e-9".to_vec(),
        counts: rvl::json_out::JsonCounts::unknown(),
        total_change_txt: None,
        max_abs_delta_txt: None,
        top_k_coverage_txt: None,
    };
    let kind = RefusalKind::CsvParse { file: FileSide::New, line: Some(3), column: None };
    let out = rvl::json_out::render_json(&ctx, &rvl::json_out::JsonVerdict::Refusal(
        RefusalCode::CsvParse,
        kind,
    ));
    let text = String::from_utf8(out).expect("utf8");
    let v: serde_json::Value = serde_json::from_str(&text).expect("json");
    assert_eq!(v["outcome"], "REFUSAL");
    assert_eq!(v["alignment"]["mode"], "row_order");
    assert!(v["alignment"]["key_column"].is_null());
    assert!(v["counts"]["rows_old"].is_null());
    assert_eq!(v["refusal"]["code"], "E_CSV_PARSE");
    assert_eq!(v["refusal"]["detail"]["file"], "new");
    assert_eq!(v["refusal"]["detail"]["line"], 3);
    assert!(v["refusal"]["detail"]["column"].is_null());
    // the serializer writes detail keys in alphabetical order
    let raw = text.find("\"column\":null,\"file\":\"new\",\"line\":3").is_some();
    assert!(raw);
}
