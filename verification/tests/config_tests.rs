use csv_transform::config::{ColDef, Config, Input, Output};
use csv_transform::transformer::RunError;
use csv_transform::transformer::reconcile_headers;

#[test]
fn test_default_config() {
    let expect = Config {
        version: "1".to_string(),
        input: Input {
            trim: false,
            quoting: true,
            double_quote: true,
            quote: None,
            escape: None,
            comment: None,
            delimiter: None,
            terminator: None,
        },
        output: Output {
            header: true,
            double_quote: true,
            quote: None,
            escape: None,
            delimiter: None,
            terminator: None,
        },
        filter: None,
        columns: vec![],
    };

    assert_eq!(expect, Config::default());
}

#[test]
fn coldef_new_and_getters() {
    let def = ColDef::new("status".to_string());
    assert_eq!(def.get_name(), "status");
    assert_eq!(def.get_func(), &None);
    assert_eq!(def.get_exclude(), &None);
}

#[test]
fn get_headers_lists_declared_names_in_order() {
    let mut cfg = Config::new();
    cfg.columns.push(ColDef::new("b".to_string()));
    cfg.columns.push(ColDef::new("a".to_string()));
    assert_eq!(cfg.get_headers(), vec!["b".to_string(), "a".to_string()]);
}

#[test]
fn get_column_definition_returns_first_match() {
    let mut cfg = Config::new();
    let mut first = ColDef::new("x".to_string());
    first.func = Some("\"one\"".to_string());
    let mut second = ColDef::new("x".to_string());
    second.func = Some("\"two\"".to_string());
    cfg.columns.push(first);
    cfg.columns.push(second);
    let found = cfg.get_column_definition("x").expect("declared column");
    assert_eq!(found.get_func(), &Some("\"one\"".to_string()));
    assert!(cfg.get_column_definition("y").is_none());
}

#[test]
fn missing_header_row_is_fatal() {
    let cfg = Config::new();
    let r = reconcile_headers(&cfg, None);
    match r {
        Err(RunError::MissingHeader) => {}
        _ => panic!("a missing header row must abort the run"),
    }
}
