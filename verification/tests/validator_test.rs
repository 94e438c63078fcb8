use pyverum::binary64::Binary64;
use pyverum::rules::Rule;
use pyverum::schema::{ColumnSchema, Schema};
use pyverum::validator::{build_rules, validate, Cell, ColumnData};

fn number(x: f64) -> Binary64 {
    Binary64 { bits: x.to_bits(), shown: format!("{}", x) }
}

fn cell(text: &str) -> Cell {
    Cell { text: text.to_string(), reading: text.parse::<f64>().ok().map(f64::to_bits) }
}

fn column(name: &str, values: &[&str]) -> ColumnData {
    ColumnData { name: name.to_string(), cells: values.iter().map(|v| cell(v)).collect() }
}

fn age_and_name_schema() -> Schema {
    let age = ColumnSchema {
        dtype: "float".to_string(),
        gt: Some(number(0.0)),
        lt: Some(number(120.0)),
        ..Default::default()
    };
    let name = ColumnSchema {
        dtype: "string".to_string(),
        not_null: Some(true),
        min_length: Some(2),
        ..Default::default()
    };
    Schema { columns: vec![("age".to_string(), age), ("name".to_string(), name)] }
}

#[test]
fn test_not_null_rule() {
    let schema = ColumnSchema {
        not_null: Some(true),
        ..Default::default()
    };

    let rules = build_rules(&schema);
    assert_eq!(rules.len(), 1);
    assert_eq!(rules[0].validate("hello", None), None);
    assert!(rules[0].validate("", None).is_some());
}

#[test]
fn test_validate_report_passes() {
    let schema = age_and_name_schema();

    let data = vec![
        column("age", &["25", "40", "70"]),
        column("name", &["Alice", "Bob", "Carol"]),
    ];

    let report = validate(&schema, &data);

    assert!(report.checks_pass);
    assert!(report.results.iter().all(|r| r.pass));
}

#[test]
fn test_validate_report_fails() {
    let schema = age_and_name_schema();

    let data = vec![
        column("age", &["25", "-5", "200"]),
        column("name", &["Alice", "", "B"]),
    ];

    let report = validate(&schema, &data);

    assert!(!report.checks_pass);

    let age_gt = report.results.iter().find(|r| r.column_name == "age" && r.rule_name == "GreaterThan(0)").unwrap();
    assert!(!age_gt.pass);
    assert_eq!(age_gt.failed_values, vec!["-5"]);

    let age_lt = report.results.iter().find(|r| r.column_name == "age" && r.rule_name == "LessThan(120)").unwrap();
    assert!(!age_lt.pass);
    assert_eq!(age_lt.failed_values, vec!["200"]);

    let name_min = report.results.iter().find(|r| r.column_name == "name" && r.rule_name == "MinLength(2)").unwrap();
    assert!(!name_min.pass);
    assert!(name_min.failed_values.contains(&"B".to_string()));
}
