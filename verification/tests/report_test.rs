use pyverum::binary64::Binary64;
use pyverum::schema::{ColumnSchema, Schema};
use pyverum::validator::{build_rules, validate, validate_column, Cell, ColumnData};
use pyverum::rules::Rule;

fn number(x: f64) -> Binary64 {
    Binary64 { bits: x.to_bits(), shown: format!("{}", x) }
}

fn cells(values: &[&str]) -> Vec<Cell> {
    values
        .iter()
        .map(|v| Cell { text: v.to_string(), reading: v.parse::<f64>().ok().map(f64::to_bits) })
        .collect()
}

#[test]
fn rules_are_built_in_a_fixed_order() {
    let schema = ColumnSchema {
        dtype: "string".to_string(),
        not_null: Some(true),
        not_empty: Some(true),
        is_positive: Some(false),
        is_finite: Some(true),
        gt: Some(number(1.0)),
        between: Some([number(0.0), number(2.0)]),
        is_in: Some(vec!["x".to_string()]),
        min_length: Some(1),
        length_between: Some([1, 3]),
        date_format: Some("%Y".to_string()),
        after: Some("2000".to_string()),
        between_dates: Some(["1".to_string(), "2".to_string()]),
        ..Default::default()
    };
    let names: Vec<String> = build_rules(&schema).iter().map(|r| r.name()).collect();
    assert_eq!(
        names,
        vec![
            "NotNull", "NotEmpty", "IsFinite", "GreaterThan(1)", "Between(0, 2)", "IsIn([\"x\"])",
            "MinLength(1)", "LengthBetween(1, 3)", "DateFormat('%Y')", "AfterDate('2000')",
            "BetweenDates('1', '2')"
        ]
    );
}

#[test]
fn date_comparisons_need_a_format() {
    let schema = ColumnSchema {
        after: Some("2000-01-01".to_string()),
        before: Some("2001-01-01".to_string()),
        ..Default::default()
    };
    assert!(build_rules(&schema).is_empty());
}

#[test]
fn column_results_list_failed_values_in_order() {
    let schema = ColumnSchema {
        gt: Some(number(0.0)),
        max_length: Some(2),
        ..Default::default()
    };
    let results = validate_column("n", &cells(&["5", "x", "-1", "123"]), &schema);
    assert_eq!(results.len(), 2);
    assert_eq!(results[0].rule_name, "GreaterThan(0)");
    assert_eq!(results[0].failed_values, vec!["x", "-1"]);
    assert!(!results[0].pass);
    assert_eq!(results[1].rule_name, "MaxLength(2)");
    assert_eq!(results[1].failed_values, vec!["123"]);
    assert!(results.iter().all(|r| r.column_name == "n"));
    let empty = validate_column("n", &[], &schema);
    assert!(empty.iter().all(|r| r.pass && r.failed_values.is_empty()));
}

#[test]
fn unique_result_follows_the_rules() {
    let schema = Schema {
        columns: vec![(
            "code".to_string(),
            ColumnSchema { unique: Some(true), not_null: Some(true), ..Default::default() },
        )],
    };
    let data = vec![ColumnData { name: "code".to_string(), cells: cells(&["A", "B", "A"]) }];
    let report = validate(&schema, &data);
    assert!(!report.checks_pass);
    assert_eq!(report.results.len(), 2);
    assert_eq!(report.results[0].rule_name, "NotNull");
    assert!(report.results[0].pass);
    assert_eq!(report.results[1].rule_name, "Unique");
    assert!(!report.results[1].pass);
    assert_eq!(report.results[1].failed_values, vec!["A"]);

    let distinct = vec![ColumnData { name: "code".to_string(), cells: cells(&["A", "B"]) }];
    let report = validate(&schema, &distinct);
    assert!(report.checks_pass);
    assert_eq!(report.results[1].rule_name, "Unique");
    assert!(report.results[1].pass);
    assert!(report.results[1].failed_values.is_empty());
}

#[test]
fn columns_missing_from_the_data_are_skipped() {
    let schema = Schema {
        columns: vec![
            ("absent".to_string(), ColumnSchema { not_null: Some(true), ..Default::default() }),
            ("present".to_string(), ColumnSchema { min_length: Some(1), ..Default::default() }),
        ],
    };
    let data = vec![
        ColumnData { name: "other".to_string(), cells: cells(&[""]) },
        ColumnData { name: "present".to_string(), cells: cells(&["", "x"]) },
    ];
    let report = validate(&schema, &data);
    assert_eq!(report.results.len(), 1);
    assert_eq!(report.results[0].column_name, "present");
    assert_eq!(report.results[0].failed_values, vec![""]);
    assert!(!report.checks_pass);

    let nothing = validate(&Schema { columns: vec![] }, &data);
    assert!(nothing.checks_pass);
    assert!(nothing.results.is_empty());
}

#[test]
fn report_text_lays_out_every_result() {
    let schema = Schema {
        columns: vec![
            (
                "age".to_string(),
                ColumnSchema { gt: Some(number(0.0)), lt: Some(number(120.0)), ..Default::default() },
            ),
            (
                "name".to_string(),
                ColumnSchema { not_null: Some(true), min_length: Some(2), ..Default::default() },
            ),
        ],
    };
    let data = vec![
        ColumnData { name: "age".to_string(), cells: cells(&["25", "-5", "200"]) },
        ColumnData { name: "name".to_string(), cells: cells(&["Alice", "", "B"]) },
    ];
    let report = validate(&schema, &data);
    let expected = "Validation: FAILED\n\
Summary: 4 rules | 0 passed | 4 failed\n\
----------------------------------------\n\
[age] GreaterThan(0) \u{2014} \u{2717} FAIL\n    failed values: [\"-5\"]\n\
[age] LessThan(120) \u{2014} \u{2717} FAIL\n    failed values: [\"200\"]\n\
[name] NotNull \u{2014} \u{2717} FAIL\n    failed values: [\"\"]\n\
[name] MinLength(2) \u{2014} \u{2717} FAIL\n    failed values: [\"\", \"B\"]\n";
    assert_eq!(report.render(), expected);
}

#[test]
fn report_text_counts_passes() {
    let schema = Schema {
        columns: vec![(
            "name".to_string(),
            ColumnSchema { not_null: Some(true), max_length: Some(1), ..Default::default() },
        )],
    };
    let data = vec![ColumnData { name: "name".to_string(), cells: cells(&["Al"]) }];
    let report = validate(&schema, &data);
    let expected = "Validation: FAILED\n\
Summary: 2 rules | 1 passed | 1 failed\n\
----------------------------------------\n\
[name] NotNull \u{2014} \u{2713} PASS\n\
[name] MaxLength(1) \u{2014} \u{2717} FAIL\n    failed values: [\"Al\"]\n";
    assert_eq!(report.render(), expected);
    let empty = validate(&Schema { columns: vec![] }, &data);
    assert_eq!(
        empty.render(),
        "Validation: PASSED\nSummary: 0 rules | 0 passed | 0 failed\n----------------------------------------\n"
    );
}

#[test]
fn unique_result_lists_the_repeated_values() {
    let schema = Schema {
        columns: vec![(
            "id".to_string(),
            ColumnSchema { dtype: "string".to_string(), unique: Some(true), ..Default::default() },
        )],
    };
    let data = vec![ColumnData { name: "id".to_string(), cells: cells(&["a", "b", "a"]) }];
    let report = validate(&schema, &data);
    assert!(!report.checks_pass);
    assert_eq!(report.results.len(), 1);
    assert_eq!(report.results[0].column_name, "id");
    assert_eq!(report.results[0].rule_name, "Unique");
    assert!(!report.results[0].pass);
    assert_eq!(report.results[0].failed_values, vec!["a"]);
}
