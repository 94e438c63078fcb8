use pyverum::binary64::Binary64;
use pyverum::rules::{
    AfterDate, BeforeDate, BetweenDates, Contains, DateFormat, EndsWith, GreaterEqualThan,
    GreaterThan, LengthBetween, LessEqualThan, LessThan, MaxLength, MinLength, Rule, StartsWith,
};
use pyverum::schema::{ColumnSchema, Schema};
use pyverum::validator::{validate, Cell, ColumnData};

fn number(x: f64) -> Binary64 {
    Binary64 { bits: x.to_bits(), shown: format!("{}", x) }
}

fn reading(text: &str) -> Option<u64> {
    text.parse::<f64>().ok().map(f64::to_bits)
}

fn accepts<R: Rule>(rule: &R, value: &str) -> bool {
    rule.validate(value, reading(value)).is_none()
}

#[test]
fn bounds_split_the_numbers() {
    for t in [0.0, -1.5, 3.0] {
        for v in ["-2", "-1.5", "0", "-0", "3", "7", "inf", "-inf"] {
            assert_ne!(accepts(&GreaterThan(number(t)), v), accepts(&LessEqualThan(number(t)), v));
            assert_ne!(accepts(&LessThan(number(t)), v), accepts(&GreaterEqualThan(number(t)), v));
        }
        for v in ["NaN", "text"] {
            assert!(!accepts(&GreaterThan(number(t)), v));
            assert!(!accepts(&LessEqualThan(number(t)), v));
            assert!(!accepts(&LessThan(number(t)), v));
            assert!(!accepts(&GreaterEqualThan(number(t)), v));
        }
    }
}

#[test]
fn length_between_is_both_bounds() {
    for v in ["", "a", "ab", "abc", "abcd", "é", "éé"] {
        assert_eq!(
            accepts(&LengthBetween(2, 3), v),
            accepts(&MinLength(2), v) && accepts(&MaxLength(3), v)
        );
    }
}

#[test]
fn affixes_are_contained() {
    for v in ["ab", "ba", "b", "", "xaby"] {
        if accepts(&StartsWith("ab".to_string()), v) || accepts(&EndsWith("ab".to_string()), v) {
            assert!(accepts(&Contains("ab".to_string()), v));
        }
    }
}

#[test]
fn date_rules_need_dates() {
    let fmt = "%d/%m/%Y".to_string();
    for v in ["31/12/1999", "1999-12-31", "32/01/2000", ""] {
        let is_date = accepts(&DateFormat(fmt.clone()), v);
        if !is_date {
            assert!(!accepts(&AfterDate("01/01/1900".to_string(), fmt.clone()), v));
            assert!(!accepts(&BeforeDate("01/01/2100".to_string(), fmt.clone()), v));
            assert!(!accepts(
                &BetweenDates("01/01/1900".to_string(), "01/01/2100".to_string(), fmt.clone()),
                v
            ));
        }
    }
    assert!(accepts(&DateFormat(fmt.clone()), "31/12/1999"));
}

#[test]
fn report_passes_when_every_column_is_clean() {
    let schema = Schema {
        columns: vec![(
            "id".to_string(),
            ColumnSchema {
                unique: Some(true),
                starts_with: Some("ID_".to_string()),
                ..Default::default()
            },
        )],
    };
    let column = |values: &[&str]| {
        vec![ColumnData {
            name: "id".to_string(),
            cells: values
                .iter()
                .map(|v| Cell { text: v.to_string(), reading: reading(v) })
                .collect(),
        }]
    };
    assert!(validate(&schema, &column(&["ID_1", "ID_2"])).checks_pass);
    assert!(!validate(&schema, &column(&["ID_1", "ID_1"])).checks_pass);
    assert!(!validate(&schema, &column(&["ID_1", "X_2"])).checks_pass);
    assert!(validate(&schema, &column(&[])).checks_pass);
}
