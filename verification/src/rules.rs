//! The rules that a column's values are checked against.
use vstd::prelude::*;
use std::collections::HashMap;
use vstd::utf8::encode_utf8;
use crate::binary64::{self, Binary64};
use crate::dates::{day_of, parsed_day};
use crate::pattern::{match_pattern, regex_compiles, regex_finds_match};
use crate::text::{
    chars_of, contains_text, decimal, ends_with_text, has_infix, has_prefix, has_suffix,
    hash_chars, is_blank, is_blank_text, list_debug_form, push_decimal, push_list_debug,
    push_text, same_chars, same_text, starts_with_text, text_hash, texts,
};

verus! {

/// What a rule is, in plain values: its kind and its parameters. A number
/// parameter is its binary64 bit pattern with its decimal text.
pub enum RuleModel {
    NotNull,
    NotEmpty,
    IsPositive,
    IsNegative,
    IsFinite,
    GreaterThan(u64, Seq<char>),
    GreaterEqualThan(u64, Seq<char>),
    LessEqualThan(u64, Seq<char>),
    LessThan(u64, Seq<char>),
    Equal(u64, Seq<char>),
    Between(u64, Seq<char>, u64, Seq<char>),
    IsIn(Seq<Seq<char>>),
    Contains(Seq<char>),
    StartsWith(Seq<char>),
    EndsWith(Seq<char>),
    MinLength(usize),
    MaxLength(usize),
    LengthBetween(usize, usize),
    MatchRegex(Seq<char>),
    DateFormat(Seq<char>),
    AfterDate(Seq<char>, Seq<char>),
    BeforeDate(Seq<char>, Seq<char>),
    BetweenDates(Seq<char>, Seq<char>, Seq<char>),
}

/// The length of a text in bytes of UTF-8.
pub open spec fn byte_len(value: Seq<char>) -> nat {
    encode_utf8(value).len()
}

/// The complaint about a value that does not read as a number.
pub open spec fn not_a_number(value: Seq<char>) -> Seq<char> {
    "value '"@ + value + "' is not a number"@
}

/// The outcome of a rule on a number: accepted, or the complaint.
pub open spec fn on_number(
    value: Seq<char>,
    reading: Option<u64>,
    accepts: bool,
    complaint: Seq<char>,
) -> Option<Seq<char>> {
    match reading {
        None => Some(not_a_number(value)),
        Some(_) => if accepts { None } else { Some(complaint) },
    }
}

/// The complaint about a value that does not read as a date in `format`.
pub open spec fn not_a_date(value: Seq<char>, format: Seq<char>) -> Seq<char> {
    "value '"@ + value + "' does not match date format '"@ + format + "'"@
}

/// The complaint about a reference date that does not read in its format.
pub open spec fn bad_reference(reference: Seq<char>) -> Seq<char> {
    "invalid reference date '"@ + reference + "'"@
}

/// The start of the complaints about a text's length.
pub open spec fn length_lead(value: Seq<char>) -> Seq<char> {
    "value '"@ + value + "' has length '"@ + decimal(byte_len(value))
}

impl RuleModel {
    /// What the rule says of `value`, whose reading as a binary64 number is
    /// `reading` (`None` where it is not a number): `None` when it accepts
    /// the value, else the complaint.
    pub open spec fn outcome(self, value: Seq<char>, reading: Option<u64>) -> Option<Seq<char>> {
        let n = reading.unwrap();
        match self {
            RuleModel::NotNull => if is_blank(value) {
                Some("Value is null or empty"@)
            } else {
                None
            },
            RuleModel::NotEmpty => if is_blank(value) {
                Some("Value is empty"@)
            } else {
                None
            },
            RuleModel::IsPositive => on_number(
                value,
                reading,
                binary64::less(binary64::zero(), n),
                "value must be positive"@,
            ),
            RuleModel::IsNegative => on_number(
                value,
                reading,
                binary64::less(n, binary64::zero()),
                "value must be negative"@,
            ),
            RuleModel::IsFinite => on_number(
                value,
                reading,
                binary64::is_finite(n),
                "found inf or NaN values"@,
            ),
            RuleModel::GreaterThan(t, shown) => on_number(
                value,
                reading,
                binary64::less(t, n),
                "value must be greater than "@ + shown,
            ),
            RuleModel::GreaterEqualThan(t, shown) => on_number(
                value,
                reading,
                binary64::less_eq(t, n),
                "value must be greater or equal than "@ + shown,
            ),
            RuleModel::LessEqualThan(t, shown) => on_number(
                value,
                reading,
                binary64::less_eq(n, t),
                "value must be less or equal than "@ + shown,
            ),
            RuleModel::LessThan(t, shown) => on_number(
                value,
                reading,
                binary64::less(n, t),
                "value must be less than "@ + shown,
            ),
            RuleModel::Equal(t, shown) => on_number(
                value,
                reading,
                binary64::equal(n, t),
                "value must be equal to "@ + shown,
            ),
            RuleModel::Between(lo, lo_shown, hi, hi_shown) => on_number(
                value,
                reading,
                binary64::less_eq(lo, n) && binary64::less_eq(n, hi),
                "value must be between "@ + lo_shown + " and "@ + hi_shown,
            ),
            RuleModel::IsIn(allowed) => if allowed.contains(value) {
                None
            } else {
                Some("value '"@ + value + "' is not in "@ + list_debug_form(allowed))
            },
            RuleModel::Contains(part) => if has_infix(value, part) {
                None
            } else {
                Some("value '"@ + value + "' does not contain '"@ + part + "'"@)
            },
            RuleModel::StartsWith(prefix) => if has_prefix(value, prefix) {
                None
            } else {
                Some("value '"@ + value + "' does not start with '"@ + prefix + "'"@)
            },
            RuleModel::EndsWith(suffix) => if has_suffix(value, suffix) {
                None
            } else {
                Some("value '"@ + value + "' does not end with '"@ + suffix + "'"@)
            },
            RuleModel::MaxLength(max) => if byte_len(value) <= max {
                None
            } else {
                Some(length_lead(value) + "', expected at most '"@ + decimal(max as nat) + "'"@)
            },
            RuleModel::MinLength(min) => if byte_len(value) >= min {
                None
            } else {
                Some(
                    length_lead(value) + "', expected minimum length of '"@ + decimal(min as nat)
                        + "'"@,
                )
            },
            RuleModel::LengthBetween(min, max) => if min <= byte_len(value) <= max {
                None
            } else {
                Some(
                    length_lead(value) + "', expected minimum length of '"@ + decimal(min as nat)
                        + "' and at most '"@ + decimal(max as nat) + "'"@,
                )
            },
            RuleModel::MatchRegex(pattern) => if !regex_compiles(pattern) {
                Some("invalid regex pattern '"@ + pattern + "'"@)
            } else if regex_finds_match(pattern, value) {
                None
            } else {
                Some("value '"@ + value + "' does not match the pattern '"@ + pattern + "'"@)
            },
            RuleModel::DateFormat(format) => if parsed_day(value, format) is Some {
                None
            } else {
                Some(not_a_date(value, format))
            },
            RuleModel::AfterDate(reference, format) => match parsed_day(reference, format) {
                None => Some(bad_reference(reference)),
                Some(r) => match parsed_day(value, format) {
                    None => Some(not_a_date(value, format)),
                    Some(d) => if d > r {
                        None
                    } else {
                        Some("date '"@ + value + "' must be after '"@ + reference + "'"@)
                    },
                },
            },
            RuleModel::BeforeDate(reference, format) => match parsed_day(reference, format) {
                None => Some(bad_reference(reference)),
                Some(r) => match parsed_day(value, format) {
                    None => Some(not_a_date(value, format)),
                    Some(d) => if d < r {
                        None
                    } else {
                        Some("date '"@ + value + "' must be before '"@ + reference + "'"@)
                    },
                },
            },
            RuleModel::BetweenDates(from, to, format) => match parsed_day(from, format) {
                None => Some(bad_reference(from)),
                Some(f) => match parsed_day(to, format) {
                    None => Some(bad_reference(to)),
                    Some(t) => match parsed_day(value, format) {
                        None => Some(not_a_date(value, format)),
                        Some(d) => if f <= d <= t {
                            None
                        } else {
                            Some(
                                "date '"@ + value + "' must be between '"@ + from + "' and '"@ + to
                                    + "'"@,
                            )
                        },
                    },
                },
            },
        }
    }

    /// Whether the rule turns `value` down.
    pub open spec fn rejects(self, value: Seq<char>, reading: Option<u64>) -> bool {
        self.outcome(value, reading) is Some
    }

    /// The rule's name, with its parameters, as reports show it.
    pub open spec fn label(self) -> Seq<char> {
        match self {
            RuleModel::NotNull => "NotNull"@,
            RuleModel::NotEmpty => "NotEmpty"@,
            RuleModel::IsPositive => "IsPositive"@,
            RuleModel::IsNegative => "IsNegative"@,
            RuleModel::IsFinite => "IsFinite"@,
            RuleModel::GreaterThan(_, shown) => "GreaterThan("@ + shown + ")"@,
            RuleModel::GreaterEqualThan(_, shown) => "GreaterEqualThan("@ + shown + ")"@,
            RuleModel::LessEqualThan(_, shown) => "LessEqualThan("@ + shown + ")"@,
            RuleModel::LessThan(_, shown) => "LessThan("@ + shown + ")"@,
            RuleModel::Equal(_, shown) => "Equal("@ + shown + ")"@,
            RuleModel::Between(_, lo, _, hi) => "Between("@ + lo + ", "@ + hi + ")"@,
            RuleModel::IsIn(allowed) => "IsIn("@ + list_debug_form(allowed) + ")"@,
            RuleModel::Contains(part) => "Contains('"@ + part + "')"@,
            RuleModel::StartsWith(prefix) => "StartsWith('"@ + prefix + "')"@,
            RuleModel::EndsWith(suffix) => "EndsWith('"@ + suffix + "')"@,
            RuleModel::MaxLength(max) => "MaxLength("@ + decimal(max as nat) + ")"@,
            RuleModel::MinLength(min) => "MinLength("@ + decimal(min as nat) + ")"@,
            RuleModel::LengthBetween(min, max) => "LengthBetween("@ + decimal(min as nat) + ", "@
                + decimal(max as nat) + ")"@,
            RuleModel::MatchRegex(pattern) => "MatchRegex('"@ + pattern + "')"@,
            RuleModel::DateFormat(format) => "DateFormat('"@ + format + "')"@,
            RuleModel::AfterDate(reference, _) => "AfterDate('"@ + reference + "')"@,
            RuleModel::BeforeDate(reference, _) => "BeforeDate('"@ + reference + "')"@,
            RuleModel::BetweenDates(from, to, _) => "BetweenDates('"@ + from + "', '"@ + to
                + "')"@,
        }
    }
}

/// A check on single values of a column.
pub trait Rule {
    /// What the rule is, in plain values.
    spec fn model(&self) -> RuleModel;

    /// Checks `value`, whose reading as a binary64 number is `reading`
    /// (`None` where the text is not a number; only numeric rules look at it).
    /// Gives `None` when the value passes, else the complaint.
    fn validate(&self, value: &str, reading: Option<u64>) -> (r: Option<String>)
        ensures
            r is Some <==> self.model().rejects(value@, reading),
            r matches Some(m) ==> self.model().outcome(value@, reading) == Some(m@),
    ;

    /// The rule's name, with its parameters.
    fn name(&self) -> (r: String)
        ensures
            r@ == self.model().label(),
    ;
}

/// Values must not be blank.
pub struct NotNull;

/// Values must not be blank.
pub struct NotEmpty;

/// Values must be numbers above zero.
pub struct IsPositive;

/// Values must be numbers below zero.
pub struct IsNegative;

/// Values must be finite numbers.
pub struct IsFinite;

/// Values must be numbers above the bound.
pub struct GreaterThan(pub Binary64);

/// Values must be numbers not below the bound.
pub struct GreaterEqualThan(pub Binary64);

/// Values must be numbers not above the bound.
pub struct LessEqualThan(pub Binary64);

/// Values must be numbers below the bound.
pub struct LessThan(pub Binary64);

/// Values must be numbers equal to the given one.
pub struct Equal(pub Binary64);

/// Values must be numbers within the two bounds, both included.
pub struct Between(pub Binary64, pub Binary64);

/// Values must be one of the listed texts.
pub struct IsIn(pub Vec<String>);

/// Values must contain the text.
pub struct Contains(pub String);

/// Values must start with the text.
pub struct StartsWith(pub String);

/// Values must end with the text.
pub struct EndsWith(pub String);

/// Values must be at most this many bytes long.
pub struct MaxLength(pub usize);

/// Values must be at least this many bytes long.
pub struct MinLength(pub usize);

/// Values must be between the two byte lengths, both included.
pub struct LengthBetween(pub usize, pub usize);

/// Values must match the regular expression.
pub struct MatchRegex(pub String);

/// Values must be dates in the strftime-style format.
pub struct DateFormat(pub String);

/// Values must be dates after the reference date (first field), both in the
/// format (second field).
pub struct AfterDate(pub String, pub String);

/// Values must be dates before the reference date (first field), both in
/// the format (second field).
pub struct BeforeDate(pub String, pub String);

/// Values must be dates from the first to the second date, both included,
/// all in the format (third field).
pub struct BetweenDates(pub String, pub String, pub String);

/// The complaint about a value that does not read as a number.
fn not_a_number_message(value: &str) -> (m: String)
    ensures
        m@ == not_a_number(value@),
{
    let mut m = String::new();
    push_text(&mut m, "value '");
    push_text(&mut m, value);
    push_text(&mut m, "' is not a number");
    assert(m@ =~= not_a_number(value@));
    m
}

/// `lead` followed by `tail`.
fn joined_message(lead: &str, tail: &str) -> (m: String)
    ensures
        m@ == lead@ + tail@,
{
    let mut m = String::new();
    push_text(&mut m, lead);
    push_text(&mut m, tail);
    assert(m@ =~= lead@ + tail@);
    m
}

/// `a`, `b`, `c` one after another.
fn three_part(a: &str, b: &str, c: &str) -> (m: String)
    ensures
        m@ == a@ + b@ + c@,
{
    let mut m = String::new();
    push_text(&mut m, a);
    push_text(&mut m, b);
    push_text(&mut m, c);
    assert(m@ =~= a@ + b@ + c@);
    m
}

/// `a`, `b`, `c`, `d`, `e` one after another.
fn five_part(a: &str, b: &str, c: &str, d: &str, e: &str) -> (m: String)
    ensures
        m@ == a@ + b@ + c@ + d@ + e@,
{
    let mut m = String::new();
    push_text(&mut m, a);
    push_text(&mut m, b);
    push_text(&mut m, c);
    push_text(&mut m, d);
    push_text(&mut m, e);
    assert(m@ =~= a@ + b@ + c@ + d@ + e@);
    m
}

/// The outcome of a numeric check whose verdict on a number is `accepts`.
fn numeric_outcome(value: &str, reading: Option<u64>, accepts: bool, complaint: String) -> (r: Option<String>)
    ensures
        r matches Some(m) ==> on_number(value@, reading, accepts, complaint@) == Some(m@),
        r is Some <==> on_number(value@, reading, accepts, complaint@) is Some,
{
    match reading {
        None => Some(not_a_number_message(value)),
        Some(_) => if accepts {
            None
        } else {
            Some(complaint)
        },
    }
}

/// The length of `value` in bytes of UTF-8.
pub fn byte_length(value: &str) -> (n: usize)
    ensures
        n == byte_len(value@),
{
    value.as_bytes().len()
}

/// The start of the complaints about the length of `value`.
fn length_lead_message(value: &str) -> (m: String)
    ensures
        m@ == length_lead(value@),
{
    let mut m = three_part("value '", value, "' has length '");
    push_decimal(&mut m, byte_length(value));
    assert(m@ =~= length_lead(value@));
    m
}

/// The complaint about a value that does not read as a date.
fn not_a_date_message(value: &str, format: &str) -> (m: String)
    ensures
        m@ == not_a_date(value@, format@),
{
    five_part("value '", value, "' does not match date format '", format, "'")
}

/// The complaint about a reference date that does not read.
fn bad_reference_message(reference: &str) -> (m: String)
    ensures
        m@ == bad_reference(reference@),
{
    three_part("invalid reference date '", reference, "'")
}

impl Rule for NotNull {
    open spec fn model(&self) -> RuleModel {
        RuleModel::NotNull
    }

    fn validate(&self, value: &str, reading: Option<u64>) -> (r: Option<String>) {
        if is_blank_text(value) {
            Some(String::from_str("Value is null or empty"))
        } else {
            None
        }
    }

    fn name(&self) -> (r: String) {
        String::from_str("NotNull")
    }
}

impl Rule for NotEmpty {
    open spec fn model(&self) -> RuleModel {
        RuleModel::NotEmpty
    }

    fn validate(&self, value: &str, reading: Option<u64>) -> (r: Option<String>) {
        if is_blank_text(value) {
            Some(String::from_str("Value is empty"))
        } else {
            None
        }
    }

    fn name(&self) -> (r: String) {
        String::from_str("NotEmpty")
    }
}

impl Rule for IsPositive {
    open spec fn model(&self) -> RuleModel {
        RuleModel::IsPositive
    }

    fn validate(&self, value: &str, reading: Option<u64>) -> (r: Option<String>) {
        let accepts = match reading {
            Some(n) => binary64::less_bits(0u64, n),
            None => false,
        };
        numeric_outcome(value, reading, accepts, String::from_str("value must be positive"))
    }

    fn name(&self) -> (r: String) {
        String::from_str("IsPositive")
    }
}

impl Rule for IsNegative {
    open spec fn model(&self) -> RuleModel {
        RuleModel::IsNegative
    }

    fn validate(&self, value: &str, reading: Option<u64>) -> (r: Option<String>) {
        let accepts = match reading {
            Some(n) => binary64::less_bits(n, 0u64),
            None => false,
        };
        numeric_outcome(value, reading, accepts, String::from_str("value must be negative"))
    }

    fn name(&self) -> (r: String) {
        String::from_str("IsNegative")
    }
}

impl Rule for IsFinite {
    open spec fn model(&self) -> RuleModel {
        RuleModel::IsFinite
    }

    fn validate(&self, value: &str, reading: Option<u64>) -> (r: Option<String>) {
        let accepts = match reading {
            Some(n) => binary64::is_finite_bits(n),
            None => false,
        };
        numeric_outcome(value, reading, accepts, String::from_str("found inf or NaN values"))
    }

    fn name(&self) -> (r: String) {
        String::from_str("IsFinite")
    }
}

impl Rule for GreaterThan {
    open spec fn model(&self) -> RuleModel {
        RuleModel::GreaterThan(self.0.bits, self.0.shown@)
    }

    fn validate(&self, value: &str, reading: Option<u64>) -> (r: Option<String>) {
        let accepts = match reading {
            Some(n) => binary64::less_bits(self.0.bits, n),
            None => false,
        };
        numeric_outcome(
            value,
            reading,
            accepts,
            joined_message("value must be greater than ", self.0.shown.as_str()),
        )
    }

    fn name(&self) -> (r: String) {
        three_part("GreaterThan(", self.0.shown.as_str(), ")")
    }
}

impl Rule for GreaterEqualThan {
    open spec fn model(&self) -> RuleModel {
        RuleModel::GreaterEqualThan(self.0.bits, self.0.shown@)
    }

    fn validate(&self, value: &str, reading: Option<u64>) -> (r: Option<String>) {
        let accepts = match reading {
            Some(n) => binary64::less_eq_bits(self.0.bits, n),
            None => false,
        };
        numeric_outcome(
            value,
            reading,
            accepts,
            joined_message("value must be greater or equal than ", self.0.shown.as_str()),
        )
    }

    fn name(&self) -> (r: String) {
        three_part("GreaterEqualThan(", self.0.shown.as_str(), ")")
    }
}

impl Rule for LessEqualThan {
    open spec fn model(&self) -> RuleModel {
        RuleModel::LessEqualThan(self.0.bits, self.0.shown@)
    }

    fn validate(&self, value: &str, reading: Option<u64>) -> (r: Option<String>) {
        let accepts = match reading {
            Some(n) => binary64::less_eq_bits(n, self.0.bits),
            None => false,
        };
        numeric_outcome(
            value,
            reading,
            accepts,
            joined_message("value must be less or equal than ", self.0.shown.as_str()),
        )
    }

    fn name(&self) -> (r: String) {
        three_part("LessEqualThan(", self.0.shown.as_str(), ")")
    }
}

impl Rule for LessThan {
    open spec fn model(&self) -> RuleModel {
        RuleModel::LessThan(self.0.bits, self.0.shown@)
    }

    fn validate(&self, value: &str, reading: Option<u64>) -> (r: Option<String>) {
        let accepts = match reading {
            Some(n) => binary64::less_bits(n, self.0.bits),
            None => false,
        };
        numeric_outcome(
            value,
            reading,
            accepts,
            joined_message("value must be less than ", self.0.shown.as_str()),
        )
    }

    fn name(&self) -> (r: String) {
        three_part("LessThan(", self.0.shown.as_str(), ")")
    }
}

impl Rule for Equal {
    open spec fn model(&self) -> RuleModel {
        RuleModel::Equal(self.0.bits, self.0.shown@)
    }

    fn validate(&self, value: &str, reading: Option<u64>) -> (r: Option<String>) {
        let accepts = match reading {
            Some(n) => binary64::equal_bits(n, self.0.bits),
            None => false,
        };
        numeric_outcome(
            value,
            reading,
            accepts,
            joined_message("value must be equal to ", self.0.shown.as_str()),
        )
    }

    fn name(&self) -> (r: String) {
        three_part("Equal(", self.0.shown.as_str(), ")")
    }
}

impl Rule for Between {
    open spec fn model(&self) -> RuleModel {
        RuleModel::Between(self.0.bits, self.0.shown@, self.1.bits, self.1.shown@)
    }

    fn validate(&self, value: &str, reading: Option<u64>) -> (r: Option<String>) {
        let accepts = match reading {
            Some(n) => binary64::less_eq_bits(self.0.bits, n) && binary64::less_eq_bits(n, self.1.bits),
            None => false,
        };
        let complaint = three_part(
            "value must be between ",
            self.0.shown.as_str(),
            " and ",
        );
        let complaint = joined_message(complaint.as_str(), self.1.shown.as_str());
        numeric_outcome(value, reading, accepts, complaint)
    }

    fn name(&self) -> (r: String) {
        five_part("Between(", self.0.shown.as_str(), ", ", self.1.shown.as_str(), ")")
    }
}

impl Rule for IsIn {
    open spec fn model(&self) -> RuleModel {
        RuleModel::IsIn(texts(self.0@))
    }

    fn validate(&self, value: &str, reading: Option<u64>) -> (r: Option<String>) {
        let n = self.0.len();
        for i in 0..n
            invariant
                n == self.0@.len(),
                forall|j: int| 0 <= j < i ==> self.0@[j]@ != value@,
        {
            if same_text(self.0[i].as_str(), value) {
                assert(texts(self.0@)[i as int] == value@);
                return None;
            }
        }
        assert(!texts(self.0@).contains(value@));
        let mut m = three_part("value '", value, "' is not in ");
        push_list_debug(&mut m, &self.0);
        Some(m)
    }

    fn name(&self) -> (r: String) {
        let mut m = String::from_str("IsIn(");
        push_list_debug(&mut m, &self.0);
        push_text(&mut m, ")");
        assert(m@ =~= self.model().label());
        m
    }
}

impl Rule for Contains {
    open spec fn model(&self) -> RuleModel {
        RuleModel::Contains(self.0@)
    }

    fn validate(&self, value: &str, reading: Option<u64>) -> (r: Option<String>) {
        if contains_text(value, self.0.as_str()) {
            None
        } else {
            Some(five_part("value '", value, "' does not contain '", self.0.as_str(), "'"))
        }
    }

    fn name(&self) -> (r: String) {
        three_part("Contains('", self.0.as_str(), "')")
    }
}

impl Rule for StartsWith {
    open spec fn model(&self) -> RuleModel {
        RuleModel::StartsWith(self.0@)
    }

    fn validate(&self, value: &str, reading: Option<u64>) -> (r: Option<String>) {
        if starts_with_text(value, self.0.as_str()) {
            None
        } else {
            Some(five_part("value '", value, "' does not start with '", self.0.as_str(), "'"))
        }
    }

    fn name(&self) -> (r: String) {
        three_part("StartsWith('", self.0.as_str(), "')")
    }
}

impl Rule for EndsWith {
    open spec fn model(&self) -> RuleModel {
        RuleModel::EndsWith(self.0@)
    }

    fn validate(&self, value: &str, reading: Option<u64>) -> (r: Option<String>) {
        if ends_with_text(value, self.0.as_str()) {
            None
        } else {
            Some(five_part("value '", value, "' does not end with '", self.0.as_str(), "'"))
        }
    }

    fn name(&self) -> (r: String) {
        three_part("EndsWith('", self.0.as_str(), "')")
    }
}

impl Rule for MaxLength {
    open spec fn model(&self) -> RuleModel {
        RuleModel::MaxLength(self.0)
    }

    fn validate(&self, value: &str, reading: Option<u64>) -> (r: Option<String>) {
        if byte_length(value) <= self.0 {
            None
        } else {
            let mut m = length_lead_message(value);
            push_text(&mut m, "', expected at most '");
            push_decimal(&mut m, self.0);
            push_text(&mut m, "'");
            assert(m@ =~= self.model().outcome(value@, reading).unwrap());
            Some(m)
        }
    }

    fn name(&self) -> (r: String) {
        let mut m = String::from_str("MaxLength(");
        push_decimal(&mut m, self.0);
        push_text(&mut m, ")");
        assert(m@ =~= self.model().label());
        m
    }
}

impl Rule for MinLength {
    open spec fn model(&self) -> RuleModel {
        RuleModel::MinLength(self.0)
    }

    fn validate(&self, value: &str, reading: Option<u64>) -> (r: Option<String>) {
        if byte_length(value) >= self.0 {
            None
        } else {
            let mut m = length_lead_message(value);
            push_text(&mut m, "', expected minimum length of '");
            push_decimal(&mut m, self.0);
            push_text(&mut m, "'");
            assert(m@ =~= self.model().outcome(value@, reading).unwrap());
            Some(m)
        }
    }

    fn name(&self) -> (r: String) {
        let mut m = String::from_str("MinLength(");
        push_decimal(&mut m, self.0);
        push_text(&mut m, ")");
        assert(m@ =~= self.model().label());
        m
    }
}

impl Rule for LengthBetween {
    open spec fn model(&self) -> RuleModel {
        RuleModel::LengthBetween(self.0, self.1)
    }

    fn validate(&self, value: &str, reading: Option<u64>) -> (r: Option<String>) {
        let len = byte_length(value);
        if len >= self.0 && len <= self.1 {
            None
        } else {
            let mut m = length_lead_message(value);
            push_text(&mut m, "', expected minimum length of '");
            push_decimal(&mut m, self.0);
            push_text(&mut m, "' and at most '");
            push_decimal(&mut m, self.1);
            push_text(&mut m, "'");
            assert(m@ =~= self.model().outcome(value@, reading).unwrap());
            Some(m)
        }
    }

    fn name(&self) -> (r: String) {
        let mut m = String::from_str("LengthBetween(");
        push_decimal(&mut m, self.0);
        push_text(&mut m, ", ");
        push_decimal(&mut m, self.1);
        push_text(&mut m, ")");
        assert(m@ =~= self.model().label());
        m
    }
}

impl Rule for MatchRegex {
    open spec fn model(&self) -> RuleModel {
        RuleModel::MatchRegex(self.0@)
    }

    fn validate(&self, value: &str, reading: Option<u64>) -> (r: Option<String>) {
        match match_pattern(self.0.as_str(), value) {
            None => Some(three_part("invalid regex pattern '", self.0.as_str(), "'")),
            Some(true) => None,
            Some(false) => Some(
                five_part("value '", value, "' does not match the pattern '", self.0.as_str(), "'"),
            ),
        }
    }

    fn name(&self) -> (r: String) {
        three_part("MatchRegex('", self.0.as_str(), "')")
    }
}

impl Rule for DateFormat {
    open spec fn model(&self) -> RuleModel {
        RuleModel::DateFormat(self.0@)
    }

    fn validate(&self, value: &str, reading: Option<u64>) -> (r: Option<String>) {
        match day_of(value, self.0.as_str()) {
            Some(_) => None,
            None => Some(not_a_date_message(value, self.0.as_str())),
        }
    }

    fn name(&self) -> (r: String) {
        three_part("DateFormat('", self.0.as_str(), "')")
    }
}

impl Rule for AfterDate {
    open spec fn model(&self) -> RuleModel {
        RuleModel::AfterDate(self.0@, self.1@)
    }

    fn validate(&self, value: &str, reading: Option<u64>) -> (r: Option<String>) {
        let reference = match day_of(self.0.as_str(), self.1.as_str()) {
            Some(d) => d,
            None => return Some(bad_reference_message(self.0.as_str())),
        };
        match day_of(value, self.1.as_str()) {
            None => Some(not_a_date_message(value, self.1.as_str())),
            Some(d) => if d > reference {
                None
            } else {
                Some(five_part("date '", value, "' must be after '", self.0.as_str(), "'"))
            },
        }
    }

    fn name(&self) -> (r: String) {
        three_part("AfterDate('", self.0.as_str(), "')")
    }
}

impl Rule for BeforeDate {
    open spec fn model(&self) -> RuleModel {
        RuleModel::BeforeDate(self.0@, self.1@)
    }

    fn validate(&self, value: &str, reading: Option<u64>) -> (r: Option<String>) {
        let reference = match day_of(self.0.as_str(), self.1.as_str()) {
            Some(d) => d,
            None => return Some(bad_reference_message(self.0.as_str())),
        };
        match day_of(value, self.1.as_str()) {
            None => Some(not_a_date_message(value, self.1.as_str())),
            Some(d) => if d < reference {
                None
            } else {
                Some(five_part("date '", value, "' must be before '", self.0.as_str(), "'"))
            },
        }
    }

    fn name(&self) -> (r: String) {
        three_part("BeforeDate('", self.0.as_str(), "')")
    }
}

impl Rule for BetweenDates {
    open spec fn model(&self) -> RuleModel {
        RuleModel::BetweenDates(self.0@, self.1@, self.2@)
    }

    fn validate(&self, value: &str, reading: Option<u64>) -> (r: Option<String>) {
        let from = match day_of(self.0.as_str(), self.2.as_str()) {
            Some(d) => d,
            None => return Some(bad_reference_message(self.0.as_str())),
        };
        let to = match day_of(self.1.as_str(), self.2.as_str()) {
            Some(d) => d,
            None => return Some(bad_reference_message(self.1.as_str())),
        };
        match day_of(value, self.2.as_str()) {
            None => Some(not_a_date_message(value, self.2.as_str())),
            Some(d) => if d >= from && d <= to {
                None
            } else {
                let mut m = five_part("date '", value, "' must be between '", self.0.as_str(), "' and '");
                push_text(&mut m, self.1.as_str());
                push_text(&mut m, "'");
                assert(m@ =~= self.model().outcome(value@, reading).unwrap());
                Some(m)
            },
        }
    }

    fn name(&self) -> (r: String) {
        five_part("BetweenDates('", self.0.as_str(), "', '", self.1.as_str(), "')")
    }
}

/// Any one of the rules, as a column's list of rules holds them.
pub enum ColumnRule {
    NotNull(NotNull),
    NotEmpty(NotEmpty),
    IsPositive(IsPositive),
    IsNegative(IsNegative),
    IsFinite(IsFinite),
    GreaterThan(GreaterThan),
    GreaterEqualThan(GreaterEqualThan),
    LessEqualThan(LessEqualThan),
    LessThan(LessThan),
    Equal(Equal),
    Between(Between),
    IsIn(IsIn),
    Contains(Contains),
    StartsWith(StartsWith),
    EndsWith(EndsWith),
    MinLength(MinLength),
    MaxLength(MaxLength),
    LengthBetween(LengthBetween),
    MatchRegex(MatchRegex),
    DateFormat(DateFormat),
    AfterDate(AfterDate),
    BeforeDate(BeforeDate),
    BetweenDates(BetweenDates),
}

impl Rule for ColumnRule {
    open spec fn model(&self) -> RuleModel {
        match self {
            ColumnRule::NotNull(r) => r.model(),
            ColumnRule::NotEmpty(r) => r.model(),
            ColumnRule::IsPositive(r) => r.model(),
            ColumnRule::IsNegative(r) => r.model(),
            ColumnRule::IsFinite(r) => r.model(),
            ColumnRule::GreaterThan(r) => r.model(),
            ColumnRule::GreaterEqualThan(r) => r.model(),
            ColumnRule::LessEqualThan(r) => r.model(),
            ColumnRule::LessThan(r) => r.model(),
            ColumnRule::Equal(r) => r.model(),
            ColumnRule::Between(r) => r.model(),
            ColumnRule::IsIn(r) => r.model(),
            ColumnRule::Contains(r) => r.model(),
            ColumnRule::StartsWith(r) => r.model(),
            ColumnRule::EndsWith(r) => r.model(),
            ColumnRule::MinLength(r) => r.model(),
            ColumnRule::MaxLength(r) => r.model(),
            ColumnRule::LengthBetween(r) => r.model(),
            ColumnRule::MatchRegex(r) => r.model(),
            ColumnRule::DateFormat(r) => r.model(),
            ColumnRule::AfterDate(r) => r.model(),
            ColumnRule::BeforeDate(r) => r.model(),
            ColumnRule::BetweenDates(r) => r.model(),
        }
    }

    fn validate(&self, value: &str, reading: Option<u64>) -> (r: Option<String>) {
        match self {
            ColumnRule::NotNull(r) => r.validate(value, reading),
            ColumnRule::NotEmpty(r) => r.validate(value, reading),
            ColumnRule::IsPositive(r) => r.validate(value, reading),
            ColumnRule::IsNegative(r) => r.validate(value, reading),
            ColumnRule::IsFinite(r) => r.validate(value, reading),
            ColumnRule::GreaterThan(r) => r.validate(value, reading),
            ColumnRule::GreaterEqualThan(r) => r.validate(value, reading),
            ColumnRule::LessEqualThan(r) => r.validate(value, reading),
            ColumnRule::LessThan(r) => r.validate(value, reading),
            ColumnRule::Equal(r) => r.validate(value, reading),
            ColumnRule::Between(r) => r.validate(value, reading),
            ColumnRule::IsIn(r) => r.validate(value, reading),
            ColumnRule::Contains(r) => r.validate(value, reading),
            ColumnRule::StartsWith(r) => r.validate(value, reading),
            ColumnRule::EndsWith(r) => r.validate(value, reading),
            ColumnRule::MinLength(r) => r.validate(value, reading),
            ColumnRule::MaxLength(r) => r.validate(value, reading),
            ColumnRule::LengthBetween(r) => r.validate(value, reading),
            ColumnRule::MatchRegex(r) => r.validate(value, reading),
            ColumnRule::DateFormat(r) => r.validate(value, reading),
            ColumnRule::AfterDate(r) => r.validate(value, reading),
            ColumnRule::BeforeDate(r) => r.validate(value, reading),
            ColumnRule::BetweenDates(r) => r.validate(value, reading),
        }
    }

    fn name(&self) -> (r: String) {
        match self {
            ColumnRule::NotNull(r) => r.name(),
            ColumnRule::NotEmpty(r) => r.name(),
            ColumnRule::IsPositive(r) => r.name(),
            ColumnRule::IsNegative(r) => r.name(),
            ColumnRule::IsFinite(r) => r.name(),
            ColumnRule::GreaterThan(r) => r.name(),
            ColumnRule::GreaterEqualThan(r) => r.name(),
            ColumnRule::LessEqualThan(r) => r.name(),
            ColumnRule::LessThan(r) => r.name(),
            ColumnRule::Equal(r) => r.name(),
            ColumnRule::Between(r) => r.name(),
            ColumnRule::IsIn(r) => r.name(),
            ColumnRule::Contains(r) => r.name(),
            ColumnRule::StartsWith(r) => r.name(),
            ColumnRule::EndsWith(r) => r.name(),
            ColumnRule::MinLength(r) => r.name(),
            ColumnRule::MaxLength(r) => r.name(),
            ColumnRule::LengthBetween(r) => r.name(),
            ColumnRule::MatchRegex(r) => r.name(),
            ColumnRule::DateFormat(r) => r.name(),
            ColumnRule::AfterDate(r) => r.name(),
            ColumnRule::BeforeDate(r) => r.name(),
            ColumnRule::BetweenDates(r) => r.name(),
        }
    }
}

/// The value at position `i` equals one at an earlier position.
pub open spec fn seen_earlier(values: Seq<Seq<char>>, i: int) -> bool {
    exists|j: int| 0 <= j < i && values[j] == values[i]
}

/// The complaint about a value that repeats an earlier one.
pub open spec fn duplicate_complaint(value: Seq<char>) -> Seq<char> {
    "duplicate value '"@ + value + "'"@
}

/// The values that repeat an earlier one, in order: a value that occurs
/// `k` times stands here `k - 1` times.
pub open spec fn repeated_values(values: Seq<Seq<char>>) -> Seq<Seq<char>>
    decreases values.len(),
{
    if values.len() == 0 {
        Seq::empty()
    } else {
        let earlier = repeated_values(values.drop_last());
        if seen_earlier(values, values.len() - 1) {
            earlier.push(values.last())
        } else {
            earlier
        }
    }
}

/// One complaint for each value that repeats an earlier one, in order.
pub open spec fn duplicate_complaints(values: Seq<Seq<char>>) -> Seq<Seq<char>> {
    repeated_values(values).map_values(|v: Seq<char>| duplicate_complaint(v))
}

/// The views of a list of string slices.
pub open spec fn slice_texts(values: Seq<&str>) -> Seq<Seq<char>> {
    values.map_values(|v: &str| v@)
}

/// A value that repeats an earlier one repeats a first occurrence: an
/// earlier equal value that itself repeats nothing.
proof fn lemma_first_occurrence(values: Seq<Seq<char>>, i: int)
    requires
        0 <= i < values.len(),
        seen_earlier(values, i),
    ensures
        exists|k: int| 0 <= k < i && values[k] == values[i] && !seen_earlier(values, k),
    decreases i,
{
    let j = choose|j: int| 0 <= j < i && values[j] == values[i];
    if seen_earlier(values, j) {
        lemma_first_occurrence(values, j);
        let k = choose|k: int| 0 <= k < j && values[k] == values[j] && !seen_earlier(values, k);
        assert(0 <= k < i && values[k] == values[i] && !seen_earlier(values, k));
    } else {
        assert(0 <= j < i && values[j] == values[i] && !seen_earlier(values, j));
    }
}

/// The positions that share a hash are grouped in buckets: each bucket
/// holds only earlier positions whose texts have its hash, and every first
/// occurrence before `i` stands in the bucket of its hash.
#[verifier::opaque]
pub open spec fn buckets_hold_first_occurrences(
    buckets: Map<u64, Vec<usize>>,
    all: Seq<Seq<char>>,
    i: int,
) -> bool {
    &&& forall|h: u64, t: int|
        buckets.contains_key(h) && 0 <= t < buckets[h]@.len() ==> {
            let k = #[trigger] buckets[h]@[t];
            &&& k < i
            &&& text_hash(all[k as int]) == h
        }
    &&& forall|k: int|
        0 <= k < i && !seen_earlier(all, k) ==> {
            let h = text_hash(#[trigger] all[k]) as u64;
            &&& buckets.contains_key(h)
            &&& buckets[h]@.contains(k as usize)
        }
}

/// Whether the value at `i` repeats an earlier one, found by looking only
/// among the first occurrences that share its hash `h`.
fn repeats_earlier(
    buckets: &HashMap<u64, Vec<usize>>,
    chars: &Vec<Vec<char>>,
    current: &Vec<char>,
    h: u64,
    Ghost(all): Ghost<Seq<Seq<char>>>,
    i: usize,
) -> (repeated: bool)
    requires
        i < all.len(),
        chars@.len() == i,
        forall|k: int| 0 <= k < i ==> (#[trigger] chars@[k])@ == all[k],
        current@ == all[i as int],
        h == text_hash(all[i as int]),
        buckets_hold_first_occurrences(buckets@, all, i as int),
    ensures
        repeated == seen_earlier(all, i as int),
{
    broadcast use vstd::std_specs::hash::group_hash_axioms;

    reveal(buckets_hold_first_occurrences);
    let mut repeated = false;
    match buckets.get(&h) {
        Some(bucket) => {
            let m = bucket.len();
            let mut t: usize = 0;
            while t < m
                invariant_except_break
                    !repeated,
                invariant
                    t <= m,
                    m == bucket@.len(),
                    i < all.len(),
                    chars@.len() == i,
                    forall|k: int| 0 <= k < i ==> (#[trigger] chars@[k])@ == all[k],
                    current@ == all[i as int],
                    h == text_hash(all[i as int]),
                    buckets_hold_first_occurrences(buckets@, all, i as int),
                    buckets@.contains_key(h),
                    buckets@[h] == *bucket,
                    forall|u: int| 0 <= u < t ==> all[bucket@[u] as int] != all[i as int],
                ensures
                    repeated ==> seen_earlier(all, i as int),
                    !repeated ==> forall|u: int|
                        0 <= u < m ==> all[bucket@[u] as int] != all[i as int],
                decreases m - t,
            {
                let k = bucket[t];
                assert(k < i && text_hash(all[k as int]) == h) by {
                    reveal(buckets_hold_first_occurrences);
                    let kk = buckets@[h]@[t as int];
                }
                if same_chars(&chars[k], current) {
                    repeated = true;
                    break;
                }
                t = t + 1;
            }
            if !repeated {
                assert(!seen_earlier(all, i as int)) by {
                    if seen_earlier(all, i as int) {
                        lemma_first_occurrence(all, i as int);
                        let k = choose|k: int|
                            0 <= k < i && all[k] == all[i as int] && !seen_earlier(all, k);
                        assert(text_hash(all[k]) as u64 == h);
                        assert(buckets@[h]@.contains(k as usize));
                        let u = choose|u: int| 0 <= u < m && bucket@[u] == k as usize;
                        assert(all[bucket@[u] as int] == all[i as int]);
                    }
                }
            }
        },
        None => {
            assert(!seen_earlier(all, i as int)) by {
                if seen_earlier(all, i as int) {
                    lemma_first_occurrence(all, i as int);
                    let k = choose|k: int|
                        0 <= k < i && all[k] == all[i as int] && !seen_earlier(all, k);
                    assert(text_hash(all[k]) as u64 == h);
                }
            }
        },
    }
    repeated
}

/// A position that repeats an earlier value adds no first occurrence.
proof fn lemma_repeat_adds_no_first_occurrence(
    buckets: Map<u64, Vec<usize>>,
    all: Seq<Seq<char>>,
    i: int,
)
    requires
        0 <= i < all.len(),
        seen_earlier(all, i),
        buckets_hold_first_occurrences(buckets, all, i),
    ensures
        buckets_hold_first_occurrences(buckets, all, i + 1),
{
    reveal(buckets_hold_first_occurrences);
    assert forall|g: u64, t: int| buckets.contains_key(g) && 0 <= t < buckets[g]@.len() implies {
        let k = #[trigger] buckets[g]@[t];
        &&& k < i + 1
        &&& text_hash(all[k as int]) == g
    } by {
        let k = buckets[g]@[t];
    }
}

/// Records `i`, a first occurrence with hash `h`, in its bucket.
fn record_first_occurrence(
    buckets: &mut HashMap<u64, Vec<usize>>,
    h: u64,
    Ghost(all): Ghost<Seq<Seq<char>>>,
    i: usize,
)
    requires
        i < all.len(),
        h == text_hash(all[i as int]),
        buckets_hold_first_occurrences(old(buckets)@, all, i as int),
    ensures
        buckets_hold_first_occurrences(final(buckets)@, all, i + 1),
{
    broadcast use vstd::std_specs::hash::group_hash_axioms;

    reveal(buckets_hold_first_occurrences);
    let ghost old_buckets = buckets@;
    let mut bucket = match buckets.remove(&h) {
        Some(b) => b,
        None => Vec::new(),
    };
    bucket.push(i);
    buckets.insert(h, bucket);
    assert forall|g: u64, t: int| buckets@.contains_key(g) && 0 <= t < buckets@[g]@.len() implies {
        let k = #[trigger] buckets@[g]@[t];
        &&& k < i + 1
        &&& text_hash(all[k as int]) == g
    } by {
        if g != h {
            assert(buckets@[g] == old_buckets[g]);
            let k = old_buckets[g]@[t];
        } else if t < buckets@[g]@.len() - 1 {
            let k = old_buckets[g]@[t];
        }
    }
    assert forall|k: int| 0 <= k < i + 1 && !seen_earlier(all, k) implies {
        let g = text_hash(#[trigger] all[k]) as u64;
        &&& buckets@.contains_key(g)
        &&& buckets@[g]@.contains(k as usize)
    } by {
        let g = text_hash(all[k]) as u64;
        if k < i {
            if g == h {
                let u = choose|u: int|
                    0 <= u < old_buckets[g]@.len() && old_buckets[g]@[u] == k as usize;
                assert(buckets@[g]@[u] == k as usize);
            } else {
                assert(buckets@[g] == old_buckets[g]);
            }
        } else {
            assert(buckets@[g]@[buckets@[g]@.len() - 1] == k as usize);
        }
    }
}

/// The values that repeat an earlier one, in order. Values are compared
/// only with the earlier first occurrences that share their hash.
pub fn find_repeated_values(values: &[&str]) -> (repeats: Vec<String>)
    ensures
        texts(repeats@) == repeated_values(slice_texts(values@)),
{
    broadcast use vstd::std_specs::hash::group_hash_axioms;

    let ghost all = slice_texts(values@);
    let n = values.len();
    let mut chars: Vec<Vec<char>> = Vec::new();
    let mut buckets: HashMap<u64, Vec<usize>> = HashMap::new();
    let mut errors: Vec<String> = Vec::new();
    assert(buckets_hold_first_occurrences(buckets@, all, 0)) by {
        reveal(buckets_hold_first_occurrences);
    }
    for i in 0..n
        invariant
            n == values@.len(),
            all == slice_texts(values@),
            chars@.len() == i,
            forall|k: int| 0 <= k < i ==> (#[trigger] chars@[k])@ == all[k],
            buckets_hold_first_occurrences(buckets@, all, i as int),
            texts(errors@) == repeated_values(all.take(i as int)),
    {
        let current = chars_of(values[i]);
        let h = hash_chars(&current);
        let repeated = repeats_earlier(&buckets, &chars, &current, h, Ghost(all), i);
        let ghost prefix = all.take(i + 1);
        assert(prefix.drop_last() =~= all.take(i as int));
        assert(prefix.last() == all[i as int]);
        assert(seen_earlier(prefix, i as int) == seen_earlier(all, i as int)) by {
            if seen_earlier(all, i as int) {
                let k = choose|k: int| 0 <= k < i && all[k] == all[i as int];
                assert(prefix[k] == prefix[i as int]);
            }
            if seen_earlier(prefix, i as int) {
                let k = choose|k: int| 0 <= k < i && prefix[k] == prefix[i as int];
                assert(all[k] == all[i as int]);
            }
        }
        if repeated {
            errors.push(String::from_str(values[i]));
            assert(texts(errors@) =~= texts(errors@).drop_last().push(all[i as int]));
            proof {
                lemma_repeat_adds_no_first_occurrence(buckets@, all, i as int);
            }
        } else {
            record_first_occurrence(&mut buckets, h, Ghost(all), i);
        }
        chars.push(current);
    }
    assert(all.take(n as int) =~= all);
    errors
}

/// Checks that no value repeats an earlier one: one complaint for each
/// value that does, in order.
pub fn validate_unique(values: &[&str]) -> (errors: Vec<String>)
    ensures
        texts(errors@) == duplicate_complaints(slice_texts(values@)),
{
    let repeats = find_repeated_values(values);
    let ghost wanted = duplicate_complaints(slice_texts(values@));
    let mut errors: Vec<String> = Vec::new();
    let n = repeats.len();
    for i in 0..n
        invariant
            n == repeats@.len(),
            texts(repeats@) == repeated_values(slice_texts(values@)),
            wanted == duplicate_complaints(slice_texts(values@)),
            errors@.len() == i,
            forall|k: int| 0 <= k < i ==> (#[trigger] errors@[k])@ == wanted[k],
    {
        errors.push(three_part("duplicate value '", repeats[i].as_str(), "'"));
        assert(wanted[i as int] == duplicate_complaint(repeats@[i as int]@));
    }
    assert(texts(errors@) =~= wanted);
    errors
}

} // verus!
