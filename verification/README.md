# pyverum

Data validation against per-column rules, written in Verus with its
behaviour stated as contracts and proved.

A schema gives each column its rules: presence (`not_null`, `not_empty`,
`unique`), numbers (`gt`, `ge`, `le`, `lt`, `equal`, `between`,
`is_positive`, `is_negative`, `is_finite`), texts (`is_in`, `contains`,
`starts_with`, `ends_with`, `min_length`, `max_length`, `length_between`,
`matches_regex`) and dates (`date_format`, `after`, `before`,
`between_dates`). Checking data gives a report with one result per rule and
column, listing the values the rule turned down; the report passes when
every result does.

Layout:

- `src/` — the verified library.
  - `rules.rs`: the rules, what each one accepts and says (`RuleModel`), and
    the uniqueness check.
  - `validator.rs`: building a column's rules from its schema, checking
    columns and data sets, and the report's text.
  - `schema.rs`: what a schema asks of each column.
  - `binary64.rs`: IEEE 754 binary64 comparisons on bit patterns.
  - `text.rs`: white space, affixes, decimal and `Debug` renderings.
  - `pattern.rs`, `dates.rs`: the calls into `regex` and `chrono`.
  - `laws.rs`: properties proved for all inputs.
- `app/` — reading schemas from TOML, reading and printing floating-point
  numbers, and the Python module (PyO3).
- `tests/` — tests of the library.

Numbers reach the library as bit patterns: `app/` reads each value with
`str::parse::<f64>` and each bound keeps the text Rust prints for it.
