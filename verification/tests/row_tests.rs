use csv_transform::config::{ColDef, Config};
use csv_transform::headers::get_header_info;
use csv_transform::script::ExprContext;
use csv_transform::transformer::{
    RunError, keep_on_filter_outcome, output_header_row, process_record, process_records,
};

fn strings(items: &[&str]) -> Vec<String> {
    items.iter().map(|s| s.to_string()).collect()
}

#[test]
fn filter_outcome_is_fail_open() {
    assert!(keep_on_filter_outcome(Ok(true)));
    assert!(!keep_on_filter_outcome(Ok(false)));
    assert!(keep_on_filter_outcome(Err(())));
}

#[test]
fn missing_declared_column_reads_empty() {
    // A declared column the source does not carry is appended to the
    // output and its value is the empty string.
    let mut cfg = Config::new();
    cfg.columns.push(ColDef::new("status".to_string()));
    let info = get_header_info(&cfg, &strings(&["id", "name"]));
    assert_eq!(output_header_row(&cfg, &info), strings(&["id", "name", "status"]));

    let mut ctx = ExprContext::new();
    let out = process_record(&cfg, &info, &mut ctx, &strings(&["1", "Alice"]))
        .expect("no transform can fail here")
        .expect("no filter is configured");
    assert_eq!(out, strings(&["1", "Alice", ""]));
}

#[test]
fn bound_values_are_raw_and_aligned() {
    // The declared-but-absent column is bound as the empty string, and a
    // transform on it observes exactly that binding.
    let mut cfg = Config::new();
    let mut status = ColDef::new("status".to_string());
    status.func = Some("status .. \"!\"".to_string());
    cfg.columns.push(status);
    let info = get_header_info(&cfg, &strings(&["id"]));

    let mut ctx = ExprContext::new();
    let out = process_record(&cfg, &info, &mut ctx, &strings(&["7"]))
        .expect("transform is well formed")
        .expect("no filter is configured");
    assert_eq!(out, strings(&["7", "!"]));
}

#[test]
fn excluded_column_is_omitted_but_still_bound() {
    // An excluded column vanishes from the header row and every data row,
    // while its raw value stays visible to other columns' transforms.
    let mut cfg = Config::new();
    let mut name = ColDef::new("name".to_string());
    name.exclude = Some(true);
    cfg.columns.push(name);
    let mut greeting = ColDef::new("greeting".to_string());
    greeting.func = Some("\"hi \" .. name".to_string());
    cfg.columns.push(greeting);
    let info = get_header_info(&cfg, &strings(&["id", "name"]));
    assert_eq!(output_header_row(&cfg, &info), strings(&["id", "greeting"]));

    let mut ctx = ExprContext::new();
    let out = process_record(&cfg, &info, &mut ctx, &strings(&["1", "Alice"]))
        .expect("transform is well formed")
        .expect("no filter is configured");
    assert_eq!(out, strings(&["1", "hi Alice"]));
}

#[test]
fn filter_drops_matching_rows_only() {
    // Rows whose `status` equals "skip" are dropped, all others retained,
    // independent of transforms on other columns.
    let mut cfg = Config::new();
    cfg.filter = Some("status ~= \"skip\"".to_string());
    let mut id = ColDef::new("id".to_string());
    id.func = Some("id .. id".to_string());
    cfg.columns.push(id);
    let info = get_header_info(&cfg, &strings(&["id", "status"]));

    let mut ctx = ExprContext::new();
    let records = vec![
        strings(&["a", "skip"]),
        strings(&["b", "keep"]),
        strings(&["c", "skip"]),
        strings(&["d", "fine"]),
    ];
    let (rows, err) = process_records(&cfg, &info, &mut ctx, &records);
    assert!(err.is_none());
    assert_eq!(rows, vec![strings(&["bb", "keep"]), strings(&["dd", "fine"])]);
}

#[test]
fn failing_filter_keeps_the_row() {
    // A filter that cannot even be parsed must never lose data.
    let mut cfg = Config::new();
    cfg.filter = Some("this is not a valid expression ((".to_string());
    let info = get_header_info(&cfg, &strings(&["id"]));

    let mut ctx = ExprContext::new();
    let records = vec![strings(&["1"]), strings(&["2"])];
    let (rows, err) = process_records(&cfg, &info, &mut ctx, &records);
    assert!(err.is_none());
    assert_eq!(rows, vec![strings(&["1"]), strings(&["2"])]);
}

#[test]
fn transform_observes_raw_values_not_transformed_ones() {
    // Column `a` is rewritten by its transform, but column `b`'s transform
    // still reads `a`'s raw value: results are never fed back.
    let mut cfg = Config::new();
    let mut a = ColDef::new("a".to_string());
    a.func = Some("\"XX\"".to_string());
    cfg.columns.push(a);
    let mut b = ColDef::new("b".to_string());
    b.func = Some("a".to_string());
    cfg.columns.push(b);
    let info = get_header_info(&cfg, &strings(&["a", "b"]));

    let mut ctx = ExprContext::new();
    let out = process_record(&cfg, &info, &mut ctx, &strings(&["raw_a", "raw_b"]))
        .expect("transforms are well formed")
        .expect("no filter is configured");
    assert_eq!(out, strings(&["XX", "raw_a"]));
}

#[test]
fn transform_error_aborts_after_earlier_rows() {
    // The transform on `amount` raises on the second of three rows:
    // exactly the first row is produced, nothing after it.
    let mut cfg = Config::new();
    let mut amount = ColDef::new("amount".to_string());
    amount.func = Some(
        "(function() if amount == \"2\" then error(\"boom\") end return amount end)()".to_string(),
    );
    cfg.columns.push(amount);
    let info = get_header_info(&cfg, &strings(&["amount"]));

    let mut ctx = ExprContext::new();
    let records = vec![strings(&["1"]), strings(&["2"]), strings(&["3"])];
    let (rows, err) = process_records(&cfg, &info, &mut ctx, &records);
    assert_eq!(rows, vec![strings(&["1"])]);
    match err {
        Some((at, RunError::TransformFailed { column, expression, detail })) => {
            assert_eq!(at, 1);
            assert_eq!(column, "amount");
            assert!(expression.contains("error(\"boom\")"));
            assert!(detail.contains("boom"));
        }
        _ => panic!("the failing transform must abort the run"),
    }
}

#[test]
fn transform_must_yield_a_string_result() {
    // A transform that evaluates to something no string can be made of is a
    // transform failure, not a silent coercion.
    let mut cfg = Config::new();
    let mut v = ColDef::new("v".to_string());
    v.func = Some("{ 1, 2 }".to_string());
    cfg.columns.push(v);
    let info = get_header_info(&cfg, &strings(&["v"]));

    let mut ctx = ExprContext::new();
    let r = process_record(&cfg, &info, &mut ctx, &strings(&["x"]));
    match r {
        Err(RunError::TransformFailed { column, .. }) => assert_eq!(column, "v"),
        _ => panic!("a non-string transform result must abort the run"),
    }
}
