use csv_transform::config::{ColDef, Config};
use csv_transform::headers::get_header_info;
use csv_transform::script::ExprContext;
use csv_transform::transformer::{Column, Row};

#[test]
fn column_exposes_definition_and_raw_value() {
    let mut def = ColDef::new("total".to_string());
    def.exclude = Some(true);
    let col = Column::new(def, "42".to_string());
    assert_eq!(col.get_name(), "total");
    assert_eq!(col.get_value(), "42");
    assert!(col.is_excluded());

    let plain = Column::new(ColDef::new("id".to_string()), "7".to_string());
    assert!(!plain.is_excluded());
}

#[test]
fn column_without_transform_passes_value_through() {
    let ctx = ExprContext::new();
    let col = Column::new(ColDef::new("id".to_string()), "7".to_string());
    match col.get_value_with_context(&ctx) {
        Ok(v) => assert_eq!(v, "7"),
        Err(_) => panic!("a column without a transform cannot fail"),
    }
}

#[test]
fn row_aligns_record_with_output_headers() {
    let mut cfg = Config::new();
    cfg.columns.push(ColDef::new("status".to_string()));
    let info = get_header_info(&cfg, &vec!["id".to_string(), "name".to_string()]);
    let record = vec!["1".to_string()];
    let row = Row::new(&cfg, &info, &record);
    assert_eq!(row.cols.len(), 3);
    assert_eq!(row.cols[0].get_name(), "id");
    assert_eq!(row.cols[0].get_value(), "1");
    assert_eq!(row.cols[1].get_name(), "name");
    assert_eq!(row.cols[1].get_value(), "");
    assert_eq!(row.cols[2].get_name(), "status");
    assert_eq!(row.cols[2].get_value(), "");
}

#[test]
fn row_output_headers_skip_excluded_columns() {
    let mut cfg = Config::new();
    let mut secret = ColDef::new("secret".to_string());
    secret.exclude = Some(true);
    cfg.columns.push(secret);
    let info = get_header_info(&cfg, &vec!["id".to_string(), "secret".to_string()]);
    let row = Row::new(&cfg, &info, &vec![]);
    assert_eq!(row.get_output_headers(), vec!["id".to_string()]);
}

#[test]
fn row_filter_without_expression_keeps_everything() {
    let cfg = Config::new();
    let info = get_header_info(&cfg, &vec!["id".to_string()]);
    let row = Row::new(&cfg, &info, &vec!["1".to_string()]);
    let mut ctx = ExprContext::new();
    assert!(row.set_context(&mut ctx).is_ok());
    assert!(row.filter(&None, &ctx));
}
