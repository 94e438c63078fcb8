//! Data validation against per-column rules: presence, numbers, texts,
//! patterns and dates. A schema names the rules of each column; checking a
//! data set gives a report with one result per rule and column, listing the
//! values that the rule turned down.

pub mod binary64;
pub mod dates;
pub mod laws;
pub mod pattern;
pub mod rules;
pub mod schema;
pub mod text;
pub mod validator;
