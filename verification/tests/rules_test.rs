use pyverum::binary64::{equal_bits, is_finite_bits, is_nan_bits, less_bits, less_eq_bits, Binary64};
use pyverum::dates::day_of;
use pyverum::pattern::match_pattern;
use pyverum::rules::{
    find_repeated_values, validate_unique, AfterDate, BeforeDate, Between, BetweenDates, Contains, DateFormat,
    EndsWith, Equal, GreaterEqualThan, GreaterThan, IsFinite, IsIn, IsNegative, IsPositive,
    LengthBetween, LessEqualThan, LessThan, MatchRegex, MaxLength, MinLength, NotEmpty, NotNull,
    Rule, StartsWith,
};
use pyverum::text::{contains_text, ends_with_text, is_blank_text, push_decimal, starts_with_text};

fn number(x: f64) -> Binary64 {
    Binary64 { bits: x.to_bits(), shown: format!("{}", x) }
}

fn reading(text: &str) -> Option<u64> {
    text.parse::<f64>().ok().map(f64::to_bits)
}

fn check<R: Rule>(rule: &R, value: &str) -> Option<String> {
    rule.validate(value, reading(value))
}

#[test]
fn not_null_turns_down_blank_values() {
    assert_eq!(check(&NotNull, ""), Some("Value is null or empty".to_string()));
    assert_eq!(check(&NotNull, " \t\n"), Some("Value is null or empty".to_string()));
    assert_eq!(check(&NotNull, "\u{3000}\u{a0}"), Some("Value is null or empty".to_string()));
    assert_eq!(check(&NotNull, " x "), None);
    assert_eq!(check(&NotNull, "\u{180e}"), None);
    assert_eq!(NotNull.name(), "NotNull");
}

#[test]
fn not_empty_turns_down_blank_values() {
    assert_eq!(check(&NotEmpty, "  "), Some("Value is empty".to_string()));
    assert_eq!(check(&NotEmpty, "a"), None);
    assert_eq!(NotEmpty.name(), "NotEmpty");
}

#[test]
fn not_null_and_not_empty_agree() {
    for v in ["", " ", "\u{2028}", "a", " b ", "\u{200b}"] {
        assert_eq!(check(&NotNull, v).is_some(), check(&NotEmpty, v).is_some());
    }
}

#[test]
fn greater_than_compares_numbers() {
    let rule = GreaterThan(number(0.0));
    assert_eq!(rule.name(), "GreaterThan(0)");
    assert_eq!(check(&rule, "25"), None);
    assert_eq!(check(&rule, "0"), Some("value must be greater than 0".to_string()));
    assert_eq!(check(&rule, "-0.0"), Some("value must be greater than 0".to_string()));
    assert_eq!(check(&rule, "abc"), Some("value 'abc' is not a number".to_string()));
    assert_eq!(check(&rule, "NaN"), Some("value must be greater than 0".to_string()));
    assert_eq!(check(&rule, "inf"), None);
}

#[test]
fn other_bounds_compare_numbers() {
    let ge = GreaterEqualThan(number(1.5));
    assert_eq!(ge.name(), "GreaterEqualThan(1.5)");
    assert_eq!(check(&ge, "1.5"), None);
    assert_eq!(check(&ge, "1.4"), Some("value must be greater or equal than 1.5".to_string()));
    let le = LessEqualThan(number(-273.15));
    assert_eq!(le.name(), "LessEqualThan(-273.15)");
    assert_eq!(check(&le, "-273.15"), None);
    assert_eq!(check(&le, "-273"), Some("value must be less or equal than -273.15".to_string()));
    let lt = LessThan(number(120.0));
    assert_eq!(lt.name(), "LessThan(120)");
    assert_eq!(check(&lt, "200"), Some("value must be less than 120".to_string()));
    assert_eq!(check(&lt, "-inf"), None);
    let eq = Equal(number(0.0));
    assert_eq!(eq.name(), "Equal(0)");
    assert_eq!(check(&eq, "-0"), None);
    assert_eq!(check(&eq, "0.1"), Some("value must be equal to 0".to_string()));
    assert_eq!(check(&eq, "x"), Some("value 'x' is not a number".to_string()));
}

#[test]
fn between_includes_both_bounds() {
    let rule = Between(number(0.0), number(10.0));
    assert_eq!(rule.name(), "Between(0, 10)");
    assert_eq!(check(&rule, "0"), None);
    assert_eq!(check(&rule, "10"), None);
    assert_eq!(check(&rule, "10.5"), Some("value must be between 0 and 10".to_string()));
    assert_eq!(check(&rule, "ten"), Some("value 'ten' is not a number".to_string()));
    for v in ["-1", "0", "5", "10", "11", "NaN", "q"] {
        let both = check(&GreaterEqualThan(number(0.0)), v).is_none()
            && check(&LessEqualThan(number(10.0)), v).is_none();
        assert_eq!(check(&rule, v).is_none(), both);
    }
}

#[test]
fn sign_rules() {
    assert_eq!(check(&IsPositive, "3"), None);
    assert_eq!(check(&IsPositive, "0"), Some("value must be positive".to_string()));
    assert_eq!(check(&IsNegative, "-3"), None);
    assert_eq!(check(&IsNegative, "-0.0"), Some("value must be negative".to_string()));
    assert_eq!(check(&IsNegative, "n"), Some("value 'n' is not a number".to_string()));
    for v in ["-2", "-0", "0", "1e300", "NaN", "word"] {
        assert_eq!(check(&IsPositive, v).is_some(), check(&GreaterThan(number(0.0)), v).is_some());
        assert_eq!(check(&IsNegative, v).is_some(), check(&LessThan(number(0.0)), v).is_some());
    }
}

#[test]
fn finite_rule() {
    assert_eq!(IsFinite.name(), "IsFinite");
    assert_eq!(check(&IsFinite, "1e10"), None);
    assert_eq!(check(&IsFinite, "inf"), Some("found inf or NaN values".to_string()));
    assert_eq!(check(&IsFinite, "NaN"), Some("found inf or NaN values".to_string()));
    assert_eq!(check(&IsFinite, "1e400"), Some("found inf or NaN values".to_string()));
}

#[test]
fn binary64_comparisons_match_f64() {
    let samples = [0.0, -0.0, 1.0, -1.0, 0.5, f64::INFINITY, f64::NEG_INFINITY, f64::NAN, 1e-310, -1e-310, f64::MAX, f64::MIN];
    for a in samples {
        assert_eq!(is_nan_bits(a.to_bits()), a.is_nan());
        assert_eq!(is_finite_bits(a.to_bits()), a.is_finite());
        for b in samples {
            assert_eq!(less_bits(a.to_bits(), b.to_bits()), a < b);
            assert_eq!(less_eq_bits(a.to_bits(), b.to_bits()), a <= b);
            assert_eq!(equal_bits(a.to_bits(), b.to_bits()), a == b);
        }
    }
}

#[test]
fn is_in_lists_allowed_values() {
    let rule = IsIn(vec!["A".to_string(), "B".to_string(), "C".to_string()]);
    assert_eq!(rule.name(), "IsIn([\"A\", \"B\", \"C\"])");
    assert_eq!(check(&rule, "B"), None);
    assert_eq!(check(&rule, "D"), Some("value 'D' is not in [\"A\", \"B\", \"C\"]".to_string()));
    let quoted = IsIn(vec!["say \"hi\"".to_string()]);
    assert_eq!(quoted.name(), "IsIn([\"say \\\"hi\\\"\"])");
    let empty = IsIn(vec![]);
    assert_eq!(empty.name(), "IsIn([])");
    assert_eq!(check(&empty, ""), Some("value '' is not in []".to_string()));
}

#[test]
fn text_parts() {
    let c = Contains("@".to_string());
    assert_eq!(c.name(), "Contains('@')");
    assert_eq!(check(&c, "a@b"), None);
    assert_eq!(check(&c, "ab"), Some("value 'ab' does not contain '@'".to_string()));
    let s = StartsWith("ID_".to_string());
    assert_eq!(s.name(), "StartsWith('ID_')");
    assert_eq!(check(&s, "ID_7"), None);
    assert_eq!(check(&s, "id_7"), Some("value 'id_7' does not start with 'ID_'".to_string()));
    let e = EndsWith(".com".to_string());
    assert_eq!(e.name(), "EndsWith('.com')");
    assert_eq!(check(&e, "a.com"), None);
    assert_eq!(check(&e, "com"), Some("value 'com' does not end with '.com'".to_string()));
    assert!(contains_text("héllo", "él"));
    assert!(contains_text("abc", ""));
    assert!(!contains_text("", "a"));
    assert!(starts_with_text("abc", ""));
    assert!(ends_with_text("abc", "bc"));
    assert!(!ends_with_text("bc", "abc"));
}

#[test]
fn lengths_count_bytes() {
    let max = MaxLength(3);
    assert_eq!(max.name(), "MaxLength(3)");
    assert_eq!(check(&max, "abc"), None);
    assert_eq!(check(&max, "héé"), Some("value 'héé' has length '5', expected at most '3'".to_string()));
    let min = MinLength(2);
    assert_eq!(min.name(), "MinLength(2)");
    assert_eq!(check(&min, "é"), None);
    assert_eq!(check(&min, "B"), Some("value 'B' has length '1', expected minimum length of '2'".to_string()));
    let between = LengthBetween(5, 5);
    assert_eq!(between.name(), "LengthBetween(5, 5)");
    assert_eq!(check(&between, "AB123"), None);
    assert_eq!(
        check(&between, "A1234567890"),
        Some("value 'A1234567890' has length '11', expected minimum length of '5' and at most '5'".to_string())
    );
}

#[test]
fn decimal_rendering() {
    for n in [0usize, 7, 10, 99, 100, 12345, usize::MAX] {
        let mut s = String::new();
        push_decimal(&mut s, n);
        assert_eq!(s, n.to_string());
    }
}

#[test]
fn blank_texts() {
    assert!(is_blank_text(""));
    assert!(is_blank_text("\u{9}\u{d}\u{85}\u{1680}\u{200a}\u{205f}"));
    assert!(!is_blank_text("\u{200b}"));
}

#[test]
fn regex_rule() {
    let rule = MatchRegex("^[A-Z]{2}[0-9]{3}$".to_string());
    assert_eq!(rule.name(), "MatchRegex('^[A-Z]{2}[0-9]{3}$')");
    assert_eq!(check(&rule, "AB123"), None);
    assert_eq!(
        check(&rule, "A1234"),
        Some("value 'A1234' does not match the pattern '^[A-Z]{2}[0-9]{3}$'".to_string())
    );
    let broken = MatchRegex("(".to_string());
    assert_eq!(check(&broken, "x"), Some("invalid regex pattern '('".to_string()));
    assert_eq!(match_pattern("b+", "abbc"), Some(true));
    assert_eq!(match_pattern("^b", "abbc"), Some(false));
    assert_eq!(match_pattern("[", "abbc"), None);
}

#[test]
fn date_rules() {
    let fmt = "%Y-%m-%d".to_string();
    let format = DateFormat(fmt.clone());
    assert_eq!(format.name(), "DateFormat('%Y-%m-%d')");
    assert_eq!(check(&format, "1990-05-01"), None);
    assert_eq!(
        check(&format, "1990-13-01"),
        Some("value '1990-13-01' does not match date format '%Y-%m-%d'".to_string())
    );
    let after = AfterDate("1900-01-01".to_string(), fmt.clone());
    assert_eq!(after.name(), "AfterDate('1900-01-01')");
    assert_eq!(check(&after, "1990-05-01"), None);
    assert_eq!(check(&after, "1900-01-01"), Some("date '1900-01-01' must be after '1900-01-01'".to_string()));
    assert_eq!(check(&after, "1800-01-01"), Some("date '1800-01-01' must be after '1900-01-01'".to_string()));
    let before = BeforeDate("2010-01-01".to_string(), fmt.clone());
    assert_eq!(before.name(), "BeforeDate('2010-01-01')");
    assert_eq!(check(&before, "2020-01-01"), Some("date '2020-01-01' must be before '2010-01-01'".to_string()));
    assert_eq!(check(&before, "2009-12-31"), None);
    let bad = BeforeDate("someday".to_string(), fmt.clone());
    assert_eq!(check(&bad, "2009-12-31"), Some("invalid reference date 'someday'".to_string()));
    let between = BetweenDates("2020-01-01".to_string(), "2025-12-31".to_string(), fmt.clone());
    assert_eq!(between.name(), "BetweenDates('2020-01-01', '2025-12-31')");
    assert_eq!(check(&between, "2020-01-01"), None);
    assert_eq!(check(&between, "2025-12-31"), None);
    assert_eq!(
        check(&between, "2026-01-01"),
        Some("date '2026-01-01' must be between '2020-01-01' and '2025-12-31'".to_string())
    );
    assert_eq!(check(&between, "nope"), Some("value 'nope' does not match date format '%Y-%m-%d'".to_string()));
    let reversed = BetweenDates("2020-01-01".to_string(), "bad".to_string(), fmt.clone());
    assert_eq!(check(&reversed, "2020-01-01"), Some("invalid reference date 'bad'".to_string()));
    assert_eq!(day_of("0001-01-01", "%Y-%m-%d"), Some(1));
    assert_eq!(day_of("1970-01-01", "%Y-%m-%d"), Some(719_163));
    assert_eq!(day_of("1970-02-30", "%Y-%m-%d"), None);
}

#[test]
fn after_and_before_make_between() {
    let fmt = "%Y-%m-%d".to_string();
    let after = AfterDate("2000-01-01".to_string(), fmt.clone());
    let before = BeforeDate("2001-01-01".to_string(), fmt.clone());
    let between = BetweenDates("2000-01-01".to_string(), "2001-01-01".to_string(), fmt.clone());
    for v in ["1999-12-31", "2000-01-01", "2000-06-15", "2001-01-01", "x"] {
        if check(&after, v).is_none() && check(&before, v).is_none() {
            assert!(check(&between, v).is_none());
        }
    }
}

#[test]
fn unique_complains_once_per_repeat() {
    assert_eq!(validate_unique(&["a", "b", "c"]), Vec::<String>::new());
    assert_eq!(
        validate_unique(&["a", "b", "a", "a", "b", ""]),
        vec![
            "duplicate value 'a'".to_string(),
            "duplicate value 'a'".to_string(),
            "duplicate value 'b'".to_string()
        ]
    );
    assert_eq!(validate_unique(&[]), Vec::<String>::new());
}

#[test]
fn repeated_values_are_listed_once_per_repeat() {
    assert_eq!(find_repeated_values(&["a", "b", "a", "a", "b", ""]), vec!["a", "a", "b"]);
    assert_eq!(find_repeated_values(&["x", "y"]), Vec::<String>::new());
    assert_eq!(find_repeated_values(&["é", "e\u{301}", "é"]), vec!["é"]);
}

#[test]
fn uniqueness_ignores_order() {
    let values = ["c", "a", "b", "a", "c", "a"];
    let reordered = ["a", "a", "a", "b", "c", "c"];
    let mut first = validate_unique(&values);
    let mut second = validate_unique(&reordered);
    first.sort();
    second.sort();
    assert_eq!(first, second);
    let mut first = find_repeated_values(&values);
    let mut second = find_repeated_values(&reordered);
    first.sort();
    second.sort();
    assert_eq!(first, second);
}
