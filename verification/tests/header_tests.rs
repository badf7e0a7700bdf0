use csv_transform::config::{ColDef, Config};
use csv_transform::headers::get_header_info;

#[test]
fn normalizes_source_headers_to_snake_case() {
    let cfg = Config::new();
    let source = vec!["One".to_string(), "TwentyOne".to_string()];
    let info = get_header_info(&cfg, &source);
    assert_eq!(info.original_headers, vec!["one".to_string(), "twenty_one".to_string()]);
    assert_eq!(info.total_headers, vec!["one".to_string(), "twenty_one".to_string()]);
}

#[test]
fn normalization_is_idempotent() {
    let cfg = Config::new();
    let source = vec![
        "MixedUP CamelCase, with some Spaces".to_string(),
        "SHOUTY_SNAKE_CASE".to_string(),
        "already_snake".to_string(),
    ];
    let once = get_header_info(&cfg, &source).original_headers;
    let twice = get_header_info(&cfg, &once).original_headers;
    assert_eq!(once, twice);
}

#[test]
fn output_headers_append_absent_declared_once() {
    let mut cfg = Config::new();
    // Present in the source: passes through, not appended again.
    cfg.columns.push(ColDef::new("name".to_string()));
    // Absent and declared twice: appended exactly once.
    cfg.columns.push(ColDef::new("status".to_string()));
    cfg.columns.push(ColDef::new("status".to_string()));
    cfg.columns.push(ColDef::new("level".to_string()));
    let source = vec!["id".to_string(), "name".to_string()];
    let info = get_header_info(&cfg, &source);
    assert_eq!(info.original_headers, vec!["id".to_string(), "name".to_string()]);
    assert_eq!(
        info.total_headers,
        vec!["id".to_string(), "name".to_string(), "status".to_string(), "level".to_string()]
    );
}

#[test]
fn duplicate_source_headers_pass_through() {
    let cfg = Config::new();
    let source = vec!["A".to_string(), "A".to_string()];
    let info = get_header_info(&cfg, &source);
    assert_eq!(info.total_headers, vec!["a".to_string(), "a".to_string()]);
}
