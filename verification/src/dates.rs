//! Calendar dates read by the `chrono` crate.
use vstd::prelude::*;

verus! {

#[verifier::external_type_specification]
#[verifier::external_body]
pub struct ExDateParseError(chrono::ParseError);

/// The date that `chrono::NaiveDate::parse_from_str` reads from `text` with
/// the strftime-style `format`, as its number of days from the common era
/// (`Datelike::num_days_from_ce`), or `None` where it reports an error.
/// It depends on the two texts alone.
pub uninterp spec fn parsed_day(text: Seq<char>, format: Seq<char>) -> Option<i32>;

/// Reads a date with `chrono::NaiveDate::parse_from_str` and gives it as its
/// day number from the common era. Claimed: it succeeds exactly where
/// `parsed_day` of the two texts is a day, and gives that day. Day numbers
/// order dates as `NaiveDate`'s own comparison does; nothing else of the
/// calendar is stated.
#[verifier::external_body]
pub(crate) fn parse_day(text: &str, format: &str) -> (r: Result<i32, chrono::ParseError>)
    ensures
        r is Ok <==> parsed_day(text@, format@) is Some,
        r matches Ok(d) ==> parsed_day(text@, format@) == Some(d),
{
    chrono::NaiveDate::parse_from_str(text, format).map(|d| chrono::Datelike::num_days_from_ce(&d))
}

/// The day that `text` names in `format`, or `None` when it names none.
pub fn day_of(text: &str, format: &str) -> (r: Option<i32>)
    ensures
        r == parsed_day(text@, format@),
{
    match parse_day(text, format) {
        Ok(d) => Some(d),
        Err(_) => None,
    }
}

} // verus!
