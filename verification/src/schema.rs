//! What a schema asks of each column.
use vstd::prelude::*;
use crate::binary64::Binary64;

verus! {

/// The rules asked of one column. Each field that is set adds a rule; a
/// number is held as its binary64 bit pattern with its decimal text.
#[derive(Debug)]
pub struct ColumnSchema {
    pub dtype: String,

    // presence
    pub not_null: Option<bool>,
    pub unique: Option<bool>,

    // numbers
    pub gt: Option<Binary64>,
    pub ge: Option<Binary64>,
    pub le: Option<Binary64>,
    pub lt: Option<Binary64>,
    pub equal: Option<Binary64>,
    pub between: Option<[Binary64; 2]>,
    pub is_in: Option<Vec<String>>,
    pub is_positive: Option<bool>,
    pub is_negative: Option<bool>,
    pub is_finite: Option<bool>,

    // texts
    pub contains: Option<String>,
    pub starts_with: Option<String>,
    pub ends_with: Option<String>,
    pub min_length: Option<usize>,
    pub max_length: Option<usize>,
    pub matches_regex: Option<String>,
    pub length_between: Option<[usize; 2]>,
    pub not_empty: Option<bool>,

    // dates
    pub date_format: Option<String>,
    pub after: Option<String>,
    pub before: Option<String>,
    pub between_dates: Option<[String; 2]>,
}

impl Default for ColumnSchema {
    /// A schema with an empty type name and no rule set.
    fn default() -> (s: ColumnSchema)
        ensures
            s.dtype@ == Seq::<char>::empty(),
            s.not_null is None,
            s.unique is None,
            s.gt is None,
            s.ge is None,
            s.le is None,
            s.lt is None,
            s.equal is None,
            s.between is None,
            s.is_in is None,
            s.is_positive is None,
            s.is_negative is None,
            s.is_finite is None,
            s.contains is None,
            s.starts_with is None,
            s.ends_with is None,
            s.min_length is None,
            s.max_length is None,
            s.matches_regex is None,
            s.length_between is None,
            s.not_empty is None,
            s.date_format is None,
            s.after is None,
            s.before is None,
            s.between_dates is None,
    {
        ColumnSchema {
            dtype: String::new(),
            not_null: None,
            unique: None,
            gt: None,
            ge: None,
            le: None,
            lt: None,
            equal: None,
            between: None,
            is_in: None,
            is_positive: None,
            is_negative: None,
            is_finite: None,
            contains: None,
            starts_with: None,
            ends_with: None,
            min_length: None,
            max_length: None,
            matches_regex: None,
            length_between: None,
            not_empty: None,
            date_format: None,
            after: None,
            before: None,
            between_dates: None,
        }
    }
}

/// A schema: the columns it names, each with what it asks of that column.
#[derive(Debug)]
pub struct Schema {
    pub columns: Vec<(String, ColumnSchema)>,
}

} // verus!
