use pyverum::binary64::Binary64;
use pyverum::schema::{ColumnSchema, Schema};
use pyverum::validator::{validate, Cell, ColumnData, ValidationReport};

fn number(x: f64) -> Binary64 {
    Binary64 { bits: x.to_bits(), shown: format!("{}", x) }
}

fn data(columns: &[(&str, &[&str])]) -> Vec<ColumnData> {
    columns
        .iter()
        .map(|(name, values)| ColumnData {
            name: name.to_string(),
            cells: values
                .iter()
                .map(|v| Cell { text: v.to_string(), reading: v.parse::<f64>().ok().map(f64::to_bits) })
                .collect(),
        })
        .collect()
}

fn failed<'a>(report: &'a ValidationReport, column: &str, rule: &str) -> &'a Vec<String> {
    &report
        .results
        .iter()
        .find(|r| r.column_name == column && r.rule_name == rule)
        .unwrap()
        .failed_values
}

#[test]
fn quick_start_example() {
    let schema = Schema {
        columns: vec![
            (
                "age".to_string(),
                ColumnSchema {
                    dtype: "float".to_string(),
                    gt: Some(number(0.0)),
                    lt: Some(number(120.0)),
                    ..Default::default()
                },
            ),
            (
                "name".to_string(),
                ColumnSchema {
                    dtype: "string".to_string(),
                    not_null: Some(true),
                    min_length: Some(2),
                    ..Default::default()
                },
            ),
        ],
    };
    let report = validate(
        &schema,
        &data(&[("age", &["25", "-5", "200"]), ("name", &["Alice", "", "B"])]),
    );
    assert!(!report.checks_pass);
    assert_eq!(report.results.len(), 4);
    assert_eq!(failed(&report, "age", "GreaterThan(0)"), &vec!["-5"]);
    assert_eq!(failed(&report, "age", "LessThan(120)"), &vec!["200"]);
    assert_eq!(failed(&report, "name", "NotNull"), &vec![""]);
    assert_eq!(failed(&report, "name", "MinLength(2)"), &vec!["", "B"]);
}

#[test]
fn complete_example() {
    let s = |x: &str| x.to_string();
    let schema = Schema {
        columns: vec![
            (
                s("age"),
                ColumnSchema {
                    dtype: s("float"),
                    gt: Some(number(0.0)),
                    lt: Some(number(120.0)),
                    is_positive: Some(true),
                    is_finite: Some(true),
                    not_null: Some(true),
                    ..Default::default()
                },
            ),
            (
                s("salary"),
                ColumnSchema {
                    dtype: s("float"),
                    between: Some([number(1000.0), number(50000.0)]),
                    is_positive: Some(true),
                    ..Default::default()
                },
            ),
            (
                s("score"),
                ColumnSchema {
                    dtype: s("float"),
                    ge: Some(number(0.0)),
                    le: Some(number(10.0)),
                    ..Default::default()
                },
            ),
            (
                s("category"),
                ColumnSchema {
                    dtype: s("string"),
                    is_in: Some(vec![s("A"), s("B"), s("C")]),
                    not_empty: Some(true),
                    ..Default::default()
                },
            ),
            (
                s("name"),
                ColumnSchema {
                    dtype: s("string"),
                    not_null: Some(true),
                    min_length: Some(2),
                    max_length: Some(50),
                    ..Default::default()
                },
            ),
            (
                s("code"),
                ColumnSchema {
                    dtype: s("string"),
                    matches_regex: Some(s("^[A-Z]{2}[0-9]{3}$")),
                    length_between: Some([5, 5]),
                    ..Default::default()
                },
            ),
            (
                s("birthdate"),
                ColumnSchema {
                    dtype: s("string"),
                    date_format: Some(s("%Y-%m-%d")),
                    after: Some(s("1900-01-01")),
                    before: Some(s("2010-01-01")),
                    ..Default::default()
                },
            ),
        ],
    };
    let report = validate(
        &schema,
        &data(&[
            ("age", &["25", "200", "-5", "30"]),
            ("salary", &["5000.0", "999.0", "60000.0", "20000.0"]),
            ("score", &["10.0", "5.0", "8.0", "10.0"]),
            ("category", &["A", "D", "B", "C"]),
            ("name", &["Alice", "Bob", "Anne", "Al"]),
            ("code", &["AB123", "A1234", "AB123", "CD999"]),
            ("birthdate", &["1990-05-01", "2020-01-01", "1985-12-31", "1800-01-01"]),
        ]),
    );
    assert!(!report.checks_pass);
    assert_eq!(report.results.len(), 19);
    let none: Vec<String> = vec![];
    assert_eq!(failed(&report, "age", "NotNull"), &none);
    assert_eq!(failed(&report, "age", "IsPositive"), &vec!["-5"]);
    assert_eq!(failed(&report, "age", "IsFinite"), &none);
    assert_eq!(failed(&report, "age", "GreaterThan(0)"), &vec!["-5"]);
    assert_eq!(failed(&report, "age", "LessThan(120)"), &vec!["200"]);
    assert_eq!(failed(&report, "salary", "IsPositive"), &none);
    assert_eq!(failed(&report, "salary", "Between(1000, 50000)"), &vec!["999.0", "60000.0"]);
    assert_eq!(failed(&report, "score", "GreaterEqualThan(0)"), &none);
    assert_eq!(failed(&report, "score", "LessEqualThan(10)"), &none);
    assert_eq!(failed(&report, "category", "NotEmpty"), &none);
    assert_eq!(failed(&report, "category", "IsIn([\"A\", \"B\", \"C\"])"), &vec!["D"]);
    assert_eq!(failed(&report, "name", "MinLength(2)"), &none);
    assert_eq!(failed(&report, "name", "MaxLength(50)"), &none);
    assert_eq!(failed(&report, "code", "LengthBetween(5, 5)"), &none);
    assert_eq!(failed(&report, "code", "MatchRegex('^[A-Z]{2}[0-9]{3}$')"), &vec!["A1234"]);
    assert_eq!(failed(&report, "birthdate", "DateFormat('%Y-%m-%d')"), &none);
    assert_eq!(failed(&report, "birthdate", "AfterDate('1900-01-01')"), &vec!["1800-01-01"]);
    assert_eq!(failed(&report, "birthdate", "BeforeDate('2010-01-01')"), &vec!["2020-01-01"]);
}
