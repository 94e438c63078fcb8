//! Checking a data set against a schema, and the report that comes of it.
use vstd::prelude::*;
use crate::binary64::Binary64;
use crate::rules::{
    find_repeated_values, repeated_values, slice_texts, AfterDate, BeforeDate, Between,
    BetweenDates, ColumnRule, Contains, DateFormat, EndsWith, Equal, GreaterEqualThan,
    GreaterThan, IsFinite, IsIn, IsNegative, IsPositive, LengthBetween, LessEqualThan, LessThan,
    MatchRegex, MaxLength, MinLength, NotEmpty, NotNull, Rule, RuleModel, StartsWith,
};
use crate::schema::{ColumnSchema, Schema};
use crate::text::{decimal, list_debug_form, push_decimal, push_list_debug, push_text, same_text, texts};

verus! {

/// One rule when `present`, else none.
pub open spec fn when(present: bool, rule: RuleModel) -> Seq<RuleModel> {
    if present {
        seq![rule]
    } else {
        Seq::empty()
    }
}

/// The flag is set to `true`.
pub open spec fn flag_on(flag: Option<bool>) -> bool {
    flag == Some(true)
}

/// The bits of a number that is set.
pub open spec fn bits_of(n: Option<Binary64>) -> u64 {
    n.unwrap().bits
}

/// The text of a number that is set.
pub open spec fn shown_of(n: Option<Binary64>) -> Seq<char> {
    n.unwrap().shown@
}

/// The view of a text that is set.
pub open spec fn text_of(t: Option<String>) -> Seq<char> {
    t.unwrap()@
}

/// The rules that the flags ask for, in order.
pub open spec fn flag_rules(s: ColumnSchema) -> Seq<RuleModel> {
    when(flag_on(s.not_null), RuleModel::NotNull)
        + when(flag_on(s.not_empty), RuleModel::NotEmpty)
        + when(flag_on(s.is_positive), RuleModel::IsPositive)
        + when(flag_on(s.is_negative), RuleModel::IsNegative)
        + when(flag_on(s.is_finite), RuleModel::IsFinite)
}

/// Which comparison a number bound of the schema asks for.
pub enum BoundKind {
    Above,
    AtLeast,
    AtMost,
    Below,
    EqualTo,
}

/// The rule for a number bound of the given kind.
pub open spec fn number_rule(kind: BoundKind, bound: Option<Binary64>) -> RuleModel {
    match kind {
        BoundKind::Above => RuleModel::GreaterThan(bits_of(bound), shown_of(bound)),
        BoundKind::AtLeast => RuleModel::GreaterEqualThan(bits_of(bound), shown_of(bound)),
        BoundKind::AtMost => RuleModel::LessEqualThan(bits_of(bound), shown_of(bound)),
        BoundKind::Below => RuleModel::LessThan(bits_of(bound), shown_of(bound)),
        BoundKind::EqualTo => RuleModel::Equal(bits_of(bound), shown_of(bound)),
    }
}

/// The rules that the one-sided number bounds ask for, in order.
pub open spec fn order_rules(s: ColumnSchema) -> Seq<RuleModel> {
    when(s.gt is Some, number_rule(BoundKind::Above, s.gt))
        + when(s.ge is Some, number_rule(BoundKind::AtLeast, s.ge))
        + when(s.le is Some, number_rule(BoundKind::AtMost, s.le))
        + when(s.lt is Some, number_rule(BoundKind::Below, s.lt))
}

/// The rules that the number bounds ask for, in order.
pub open spec fn bound_rules(s: ColumnSchema) -> Seq<RuleModel> {
    order_rules(s)
        + when(s.equal is Some, number_rule(BoundKind::EqualTo, s.equal))
        + when(s.between is Some, between_rule(s.between.unwrap()))
}

/// The rules on which texts are allowed and what they hold, in order.
pub open spec fn content_rules(s: ColumnSchema) -> Seq<RuleModel> {
    when(s.is_in is Some, RuleModel::IsIn(texts(s.is_in.unwrap()@)))
        + when(s.contains is Some, text_rule(TextKind::Contains, s.contains))
        + when(s.starts_with is Some, text_rule(TextKind::StartsWith, s.starts_with))
        + when(s.ends_with is Some, text_rule(TextKind::EndsWith, s.ends_with))
}

/// The rules on lengths and patterns, in order.
pub open spec fn form_rules(s: ColumnSchema) -> Seq<RuleModel> {
    when(s.min_length is Some, length_rule(s.min_length.unwrap(), true))
        + when(s.max_length is Some, length_rule(s.max_length.unwrap(), false))
        + when(s.length_between is Some, length_range_rule(s.length_between.unwrap()))
        + when(s.matches_regex is Some, text_rule(TextKind::Pattern, s.matches_regex))
}

/// The rules on texts and their lengths, in order.
pub open spec fn text_rules(s: ColumnSchema) -> Seq<RuleModel> {
    content_rules(s) + form_rules(s)
}

/// The rules on dates, in order; all but the format rule need a format.
pub open spec fn date_rules(s: ColumnSchema) -> Seq<RuleModel> {
    let format = text_of(s.date_format);
    when(s.date_format is Some, RuleModel::DateFormat(format))
        + when(
        s.after is Some && s.date_format is Some,
        RuleModel::AfterDate(text_of(s.after), format),
    ) + when(
        s.before is Some && s.date_format is Some,
        RuleModel::BeforeDate(text_of(s.before), format),
    ) + when(
        s.between_dates is Some && s.date_format is Some,
        RuleModel::BetweenDates(
            s.between_dates.unwrap()[0]@,
            s.between_dates.unwrap()[1]@,
            format,
        ),
    )
}

/// All the rules that a column's schema asks for, in the order they are checked.
pub open spec fn schema_rules(s: ColumnSchema) -> Seq<RuleModel> {
    flag_rules(s) + bound_rules(s) + text_rules(s) + date_rules(s)
}

/// What a list of rules is, rule by rule.
pub open spec fn models(rules: Seq<ColumnRule>) -> Seq<RuleModel> {
    rules.map_values(|r: ColumnRule| r.model())
}

/// Appends `rule` to `rules`.
fn add_rule(rules: &mut Vec<ColumnRule>, rule: ColumnRule)
    ensures
        models(final(rules)@) == models(old(rules)@).push(rule.model()),
{
    rules.push(rule);
    assert(models(rules@) =~= models(old(rules)@).push(rule.model()));
}

/// Appends `rule` to `rules` when `present`.
fn add_rule_when(rules: &mut Vec<ColumnRule>, present: bool, rule: ColumnRule)
    ensures
        models(final(rules)@) == models(old(rules)@) + when(present, rule.model()),
{
    if present {
        add_rule(rules, rule);
    }
    assert(models(rules@) =~= models(old(rules)@) + when(present, rule.model()));
}

fn add_flag_rules(schema: &ColumnSchema, rules: &mut Vec<ColumnRule>)
    ensures
        models(final(rules)@) == models(old(rules)@) + flag_rules(*schema),
{
    add_rule_when(rules, schema.not_null == Some(true), ColumnRule::NotNull(NotNull));
    add_rule_when(rules, schema.not_empty == Some(true), ColumnRule::NotEmpty(NotEmpty));
    add_rule_when(rules, schema.is_positive == Some(true), ColumnRule::IsPositive(IsPositive));
    add_rule_when(rules, schema.is_negative == Some(true), ColumnRule::IsNegative(IsNegative));
    add_rule_when(rules, schema.is_finite == Some(true), ColumnRule::IsFinite(IsFinite));
    assert(models(rules@) =~= models(old(rules)@) + flag_rules(*schema));
}

/// Appends the rule for a number bound when the bound is set.
fn add_number_rule(rules: &mut Vec<ColumnRule>, bound: &Option<Binary64>, kind: BoundKind)
    ensures
        models(final(rules)@) == models(old(rules)@) + when(bound is Some, number_rule(kind, *bound)),
{
    if let Some(v) = bound {
        let n = v.duplicate();
        let rule = match kind {
            BoundKind::Above => ColumnRule::GreaterThan(GreaterThan(n)),
            BoundKind::AtLeast => ColumnRule::GreaterEqualThan(GreaterEqualThan(n)),
            BoundKind::AtMost => ColumnRule::LessEqualThan(LessEqualThan(n)),
            BoundKind::Below => ColumnRule::LessThan(LessThan(n)),
            BoundKind::EqualTo => ColumnRule::Equal(Equal(n)),
        };
        add_rule(rules, rule);
    }
    assert(models(rules@) =~= models(old(rules)@) + when(bound is Some, number_rule(kind, *bound)));
}

/// The rule for a range of numbers.
pub open spec fn between_rule(range: [Binary64; 2]) -> RuleModel {
    RuleModel::Between(range[0].bits, range[0].shown@, range[1].bits, range[1].shown@)
}

/// Appends the rule for a range of numbers when it is set.
fn add_between_rule(rules: &mut Vec<ColumnRule>, range: &Option<[Binary64; 2]>)
    ensures
        models(final(rules)@) == models(old(rules)@) + when(range is Some, between_rule(range.unwrap())),
{
    if let Some(v) = range {
        add_rule(rules, ColumnRule::Between(Between(v[0].duplicate(), v[1].duplicate())));
    }
    assert(models(rules@) =~= models(old(rules)@) + when(range is Some, between_rule(range.unwrap())));
}

fn add_order_rules(schema: &ColumnSchema, rules: &mut Vec<ColumnRule>)
    ensures
        models(final(rules)@) == models(old(rules)@) + order_rules(*schema),
{
    let ghost s0 = models(rules@);
    add_number_rule(rules, &schema.gt, BoundKind::Above);
    add_number_rule(rules, &schema.ge, BoundKind::AtLeast);
    add_number_rule(rules, &schema.le, BoundKind::AtMost);
    add_number_rule(rules, &schema.lt, BoundKind::Below);
    assert(models(rules@) =~= s0 + order_rules(*schema));
}

fn add_bound_rules(schema: &ColumnSchema, rules: &mut Vec<ColumnRule>)
    ensures
        models(final(rules)@) == models(old(rules)@) + bound_rules(*schema),
{
    let ghost s0 = models(rules@);
    add_order_rules(schema, rules);
    add_number_rule(rules, &schema.equal, BoundKind::EqualTo);
    add_between_rule(rules, &schema.between);
    assert(models(rules@) =~= s0 + bound_rules(*schema));
}

/// A copy of a list of texts.
fn copy_texts(items: &Vec<String>) -> (r: Vec<String>)
    ensures
        texts(r@) == texts(items@),
{
    let mut r: Vec<String> = Vec::new();
    let n = items.len();
    for i in 0..n
        invariant
            n == items@.len(),
            r@.len() == i,
            forall|k: int| 0 <= k < i ==> (#[trigger] r@[k])@ == items@[k]@,
    {
        r.push(items[i].clone());
    }
    assert(texts(r@) =~= texts(items@));
    r
}

/// Which check a text parameter of the schema asks for.
pub enum TextKind {
    Contains,
    StartsWith,
    EndsWith,
    Pattern,
}

/// The rule for a text parameter of the given kind.
pub open spec fn text_rule(kind: TextKind, part: Option<String>) -> RuleModel {
    match kind {
        TextKind::Contains => RuleModel::Contains(text_of(part)),
        TextKind::StartsWith => RuleModel::StartsWith(text_of(part)),
        TextKind::EndsWith => RuleModel::EndsWith(text_of(part)),
        TextKind::Pattern => RuleModel::MatchRegex(text_of(part)),
    }
}

/// Appends the rule for a text parameter when it is set.
fn add_text_rule(rules: &mut Vec<ColumnRule>, part: &Option<String>, kind: TextKind)
    ensures
        models(final(rules)@) == models(old(rules)@) + when(part is Some, text_rule(kind, *part)),
{
    if let Some(v) = part {
        let t = v.clone();
        let rule = match kind {
            TextKind::Contains => ColumnRule::Contains(Contains(t)),
            TextKind::StartsWith => ColumnRule::StartsWith(StartsWith(t)),
            TextKind::EndsWith => ColumnRule::EndsWith(EndsWith(t)),
            TextKind::Pattern => ColumnRule::MatchRegex(MatchRegex(t)),
        };
        add_rule(rules, rule);
    }
    assert(models(rules@) =~= models(old(rules)@) + when(part is Some, text_rule(kind, *part)));
}

/// Appends the rule for a list of allowed texts when it is set.
fn add_is_in_rule(rules: &mut Vec<ColumnRule>, allowed: &Option<Vec<String>>)
    ensures
        models(final(rules)@) == models(old(rules)@) + when(
            allowed is Some,
            RuleModel::IsIn(texts(allowed.unwrap()@)),
        ),
{
    if let Some(v) = allowed {
        add_rule(rules, ColumnRule::IsIn(IsIn(copy_texts(v))));
    }
    assert(models(rules@) =~= models(old(rules)@) + when(
        allowed is Some,
        RuleModel::IsIn(texts(allowed.unwrap()@)),
    ));
}

/// The rule for a length bound: a least length when `least`, else a
/// greatest one.
pub open spec fn length_rule(bound: usize, least: bool) -> RuleModel {
    if least {
        RuleModel::MinLength(bound)
    } else {
        RuleModel::MaxLength(bound)
    }
}

/// Appends the rule for a length bound when it is set.
fn add_length_rule(rules: &mut Vec<ColumnRule>, bound: Option<usize>, least: bool)
    ensures
        models(final(rules)@) == models(old(rules)@) + when(bound is Some, length_rule(bound.unwrap(), least)),
{
    if let Some(v) = bound {
        if least {
            add_rule(rules, ColumnRule::MinLength(MinLength(v)));
        } else {
            add_rule(rules, ColumnRule::MaxLength(MaxLength(v)));
        }
    }
    assert(models(rules@) =~= models(old(rules)@) + when(bound is Some, length_rule(bound.unwrap(), least)));
}

/// The rule for a range of lengths.
pub open spec fn length_range_rule(range: [usize; 2]) -> RuleModel {
    RuleModel::LengthBetween(range[0], range[1])
}

/// Appends the rule for a range of lengths when it is set.
fn add_length_range_rule(rules: &mut Vec<ColumnRule>, range: &Option<[usize; 2]>)
    ensures
        models(final(rules)@) == models(old(rules)@) + when(range is Some, length_range_rule(range.unwrap())),
{
    if let Some(v) = range {
        add_rule(rules, ColumnRule::LengthBetween(LengthBetween(v[0], v[1])));
    }
    assert(models(rules@) =~= models(old(rules)@) + when(range is Some, length_range_rule(range.unwrap())));
}

fn add_content_rules(schema: &ColumnSchema, rules: &mut Vec<ColumnRule>)
    ensures
        models(final(rules)@) == models(old(rules)@) + content_rules(*schema),
{
    let ghost s0 = models(rules@);
    add_is_in_rule(rules, &schema.is_in);
    add_text_rule(rules, &schema.contains, TextKind::Contains);
    add_text_rule(rules, &schema.starts_with, TextKind::StartsWith);
    add_text_rule(rules, &schema.ends_with, TextKind::EndsWith);
    assert(models(rules@) =~= s0 + content_rules(*schema));
}

fn add_form_rules(schema: &ColumnSchema, rules: &mut Vec<ColumnRule>)
    ensures
        models(final(rules)@) == models(old(rules)@) + form_rules(*schema),
{
    let ghost s0 = models(rules@);
    add_length_rule(rules, schema.min_length, true);
    add_length_rule(rules, schema.max_length, false);
    add_length_range_rule(rules, &schema.length_between);
    add_text_rule(rules, &schema.matches_regex, TextKind::Pattern);
    assert(models(rules@) =~= s0 + form_rules(*schema));
}

fn add_text_rules(schema: &ColumnSchema, rules: &mut Vec<ColumnRule>)
    ensures
        models(final(rules)@) == models(old(rules)@) + text_rules(*schema),
{
    let ghost s0 = models(rules@);
    add_content_rules(schema, rules);
    add_form_rules(schema, rules);
    assert(models(rules@) =~= s0 + text_rules(*schema));
}

fn add_date_rules(schema: &ColumnSchema, rules: &mut Vec<ColumnRule>)
    ensures
        models(final(rules)@) == models(old(rules)@) + date_rules(*schema),
{
    let ghost s0 = models(rules@);
    let ghost format = text_of(schema.date_format);
    if let Some(fmt) = &schema.date_format {
        add_rule(rules, ColumnRule::DateFormat(DateFormat(fmt.clone())));
    }
    assert(models(rules@) =~= s0 + when(schema.date_format is Some, RuleModel::DateFormat(format)));
    let ghost s1 = models(rules@);
    if let (Some(after), Some(fmt)) = (&schema.after, &schema.date_format) {
        add_rule(rules, ColumnRule::AfterDate(AfterDate(after.clone(), fmt.clone())));
    }
    assert(models(rules@) =~= s1 + when(
        schema.after is Some && schema.date_format is Some,
        RuleModel::AfterDate(text_of(schema.after), format),
    ));
    let ghost s2 = models(rules@);
    if let (Some(before), Some(fmt)) = (&schema.before, &schema.date_format) {
        add_rule(rules, ColumnRule::BeforeDate(BeforeDate(before.clone(), fmt.clone())));
    }
    assert(models(rules@) =~= s2 + when(
        schema.before is Some && schema.date_format is Some,
        RuleModel::BeforeDate(text_of(schema.before), format),
    ));
    let ghost s3 = models(rules@);
    if let (Some(v), Some(fmt)) = (&schema.between_dates, &schema.date_format) {
        add_rule(
            rules,
            ColumnRule::BetweenDates(BetweenDates(v[0].clone(), v[1].clone(), fmt.clone())),
        );
    }
    assert(models(rules@) =~= old(rules)@.map_values(|r: ColumnRule| r.model()) + date_rules(*schema));
}

/// The rules that `schema` asks for, in the order they are checked.
pub fn build_rules(schema: &ColumnSchema) -> (rules: Vec<ColumnRule>)
    ensures
        models(rules@) == schema_rules(*schema),
{
    let mut rules: Vec<ColumnRule> = Vec::new();
    add_flag_rules(schema, &mut rules);
    add_bound_rules(schema, &mut rules);
    add_text_rules(schema, &mut rules);
    add_date_rules(schema, &mut rules);
    assert(models(rules@) =~= schema_rules(*schema));
    rules
}

/// One value of a column: its text, and its reading as a binary64 number
/// (its bit pattern), or `None` where the text is not a number.
#[derive(Debug)]
pub struct Cell {
    pub text: String,
    pub reading: Option<u64>,
}

/// A column of the data: its name and its values.
#[derive(Debug)]
pub struct ColumnData {
    pub name: String,
    pub cells: Vec<Cell>,
}

/// How one rule fared on one column.
#[derive(Debug, Clone)]
pub struct RuleResults {
    pub column_name: String,
    pub rule_name: String,
    pub pass: bool,
    pub failed_values: Vec<String>,
}

/// How the whole data set fared.
#[derive(Debug, Clone)]
pub struct ValidationReport {
    pub checks_pass: bool,
    pub results: Vec<RuleResults>,
}

/// A rule's result in plain values.
pub struct ResultModel {
    pub column_name: Seq<char>,
    pub rule_name: Seq<char>,
    pub pass: bool,
    pub failed_values: Seq<Seq<char>>,
}

impl View for RuleResults {
    type V = ResultModel;

    open spec fn view(&self) -> ResultModel {
        ResultModel {
            column_name: self.column_name@,
            rule_name: self.rule_name@,
            pass: self.pass,
            failed_values: texts(self.failed_values@),
        }
    }
}

/// The results, one by one, in plain values.
pub open spec fn result_models(results: Seq<RuleResults>) -> Seq<ResultModel> {
    results.map_values(|r: RuleResults| r@)
}

/// The texts of the cells that `rule` turns down, in order.
pub open spec fn failed_texts(rule: RuleModel, cells: Seq<Cell>) -> Seq<Seq<char>>
    decreases cells.len(),
{
    if cells.len() == 0 {
        Seq::empty()
    } else {
        let earlier = failed_texts(rule, cells.drop_last());
        let last = cells.last();
        if rule.rejects(last.text@, last.reading) {
            earlier.push(last.text@)
        } else {
            earlier
        }
    }
}

/// The result of `rule` on the column `column` with `cells`: it passes when
/// it turns down no value.
pub open spec fn rule_result(column: Seq<char>, rule: RuleModel, cells: Seq<Cell>) -> ResultModel {
    let failed = failed_texts(rule, cells);
    ResultModel {
        column_name: column,
        rule_name: rule.label(),
        pass: failed.len() == 0,
        failed_values: failed,
    }
}

/// The result of each of `rules` on the column, in the order of the rules.
pub open spec fn column_results(column: Seq<char>, rules: Seq<RuleModel>, cells: Seq<Cell>) -> Seq<ResultModel> {
    rules.map_values(|r: RuleModel| rule_result(column, r, cells))
}

/// Checks `rule` on every cell; the texts of the cells it turns down.
fn failed_cells(rule: &ColumnRule, cells: &[Cell]) -> (failed: Vec<String>)
    ensures
        texts(failed@) == failed_texts(rule.model(), cells@),
{
    let mut failed: Vec<String> = Vec::new();
    let n = cells.len();
    for i in 0..n
        invariant
            n == cells@.len(),
            texts(failed@) == failed_texts(rule.model(), cells@.take(i as int)),
    {
        let cell = &cells[i];
        let verdict = rule.validate(cell.text.as_str(), cell.reading);
        let ghost prefix = cells@.take(i + 1);
        assert(prefix.drop_last() =~= cells@.take(i as int));
        if verdict.is_some() {
            failed.push(cell.text.clone());
            assert(texts(failed@) =~= texts(failed@).drop_last().push(cell.text@));
        }
    }
    assert(cells@.take(n as int) =~= cells@);
    failed
}

/// Checks every rule that `schema` asks for on the values of the column
/// `column_name`: one result per rule, in the order the rules are built.
pub fn validate_column(column_name: &str, values: &[Cell], schema: &ColumnSchema) -> (results: Vec<RuleResults>)
    ensures
        result_models(results@) == column_results(column_name@, schema_rules(*schema), values@),
{
    let rules = build_rules(schema);
    let ghost wanted = column_results(column_name@, schema_rules(*schema), values@);
    let mut results: Vec<RuleResults> = Vec::new();
    let n = rules.len();
    for k in 0..n
        invariant
            n == rules@.len(),
            models(rules@) == schema_rules(*schema),
            wanted == column_results(column_name@, schema_rules(*schema), values@),
            results@.len() == k,
            forall|j: int| 0 <= j < k ==> (#[trigger] results@[j])@ == wanted[j],
    {
        let rule = &rules[k];
        let rule_name = rule.name();
        let failed_values = failed_cells(rule, values);
        let pass = failed_values.len() == 0;
        let result = RuleResults {
            column_name: String::from_str(column_name),
            rule_name,
            pass,
            failed_values,
        };
        assert(models(rules@)[k as int] == rule.model());
        results.push(result);
    }
    assert(result_models(results@) =~= wanted);
    results
}

/// The texts of the cells.
pub open spec fn cell_texts(cells: Seq<Cell>) -> Seq<Seq<char>> {
    cells.map_values(|c: Cell| c.text@)
}

/// The result of the uniqueness check on a column: its failed values are
/// the values that repeat an earlier one, in order, and it passes exactly
/// when there are none.
pub open spec fn unique_result(column: Seq<char>, cells: Seq<Cell>) -> ResultModel {
    let repeats = repeated_values(cell_texts(cells));
    ResultModel {
        column_name: column,
        rule_name: "Unique"@,
        pass: repeats.len() == 0,
        failed_values: repeats,
    }
}

/// The first column of `data` named `name`, if any.
pub open spec fn lookup(data: Seq<ColumnData>, name: Seq<char>) -> Option<ColumnData>
    decreases data.len(),
{
    if data.len() == 0 {
        None
    } else if data[0].name@ == name {
        Some(data[0])
    } else {
        lookup(data.drop_first(), name)
    }
}

/// The results for one column of the schema: none when the data lacks the
/// column, else the result of each rule and, when asked, of uniqueness.
pub open spec fn schema_column_results(name: Seq<char>, schema: ColumnSchema, data: Seq<ColumnData>) -> Seq<ResultModel> {
    match lookup(data, name) {
        None => Seq::empty(),
        Some(column) => column_results(name, schema_rules(schema), column.cells@) + if flag_on(
            schema.unique,
        ) {
            seq![unique_result(name, column.cells@)]
        } else {
            Seq::empty()
        },
    }
}

/// The results for all the columns of the schema, column after column.
pub open spec fn report_results(columns: Seq<(String, ColumnSchema)>, data: Seq<ColumnData>) -> Seq<ResultModel>
    decreases columns.len(),
{
    if columns.len() == 0 {
        Seq::empty()
    } else {
        report_results(columns.drop_last(), data) + schema_column_results(
            columns.last().0@,
            columns.last().1,
            data,
        )
    }
}

/// Every result passes.
pub open spec fn all_pass(results: Seq<ResultModel>) -> bool {
    forall|i: int| 0 <= i < results.len() ==> (#[trigger] results[i]).pass
}

/// The position of the first column of `data` named `name`, if any.
fn find_column(data: &Vec<ColumnData>, name: &str) -> (r: Option<usize>)
    ensures
        r is None ==> lookup(data@, name@) is None,
        r is None ==> forall|j: int| 0 <= j < data@.len() ==> (#[trigger] data@[j]).name@ != name@,
        r matches Some(i) ==> i < data@.len() && lookup(data@, name@) == Some(data@[i as int]),
        r matches Some(i) ==> data@[i as int].name@ == name@ && forall|j: int|
            0 <= j < i ==> (#[trigger] data@[j]).name@ != name@,
{
    let n = data.len();
    assert(data@.skip(0) =~= data@);
    for i in 0..n
        invariant
            n == data@.len(),
            lookup(data@, name@) == lookup(data@.skip(i as int), name@),
            forall|j: int| 0 <= j < i ==> (#[trigger] data@[j]).name@ != name@,
    {
        let ghost rest = data@.skip(i as int);
        assert(rest.drop_first() =~= data@.skip(i + 1));
        assert(rest[0] == data@[i as int]);
        if same_text(data[i].name.as_str(), name) {
            return Some(i);
        }
    }
    assert(data@.skip(n as int).len() == 0);
    None
}

/// The string slices of the cells' texts.
fn cell_slices(cells: &Vec<Cell>) -> (r: Vec<&str>)
    ensures
        slice_texts(r@) == cell_texts(cells@),
{
    let mut r: Vec<&str> = Vec::new();
    let n = cells.len();
    for i in 0..n
        invariant
            n == cells@.len(),
            r@.len() == i,
            forall|k: int| 0 <= k < i ==> (#[trigger] r@[k])@ == cells@[k].text@,
    {
        r.push(cells[i].text.as_str());
    }
    assert(slice_texts(r@) =~= cell_texts(cells@));
    r
}

/// Checks the data against every column of the schema that the data has.
/// The report passes exactly when every result passes.
pub fn validate(schema: &Schema, data: &Vec<ColumnData>) -> (report: ValidationReport)
    ensures
        result_models(report.results@) == report_results(schema.columns@, data@),
        report.checks_pass == all_pass(result_models(report.results@)),
{
    let mut results: Vec<RuleResults> = Vec::new();
    let n = schema.columns.len();
    for c in 0..n
        invariant
            n == schema.columns@.len(),
            result_models(results@) == report_results(schema.columns@.take(c as int), data@),
    {
        let column_name = &schema.columns[c].0;
        let column_schema = &schema.columns[c].1;
        let ghost before = result_models(results@);
        let ghost columns = schema.columns@.take(c + 1);
        assert(columns.drop_last() =~= schema.columns@.take(c as int));
        if let Some(at) = find_column(data, column_name.as_str()) {
            let cells = &data[at].cells;
            let column_results = validate_column(column_name.as_str(), cells.as_slice(), column_schema);
            let ghost added = result_models(column_results@);
            let mut column_results = column_results;
            if column_schema.unique == Some(true) {
                let refs = cell_slices(cells);
                let repeats = find_repeated_values(refs.as_slice());
                let pass = repeats.len() == 0;
                column_results.push(RuleResults {
                    column_name: column_name.clone(),
                    rule_name: String::from_str("Unique"),
                    pass,
                    failed_values: repeats,
                });
                assert(result_models(column_results@) =~= added.push(unique_result(column_name@, cells@)));
            }
            assert(result_models(column_results@) =~= schema_column_results(column_name@, *column_schema, data@));
            results.append(&mut column_results);
            assert(result_models(results@) =~= before + schema_column_results(column_name@, *column_schema, data@));
        } else {
            assert(schema_column_results(column_name@, *column_schema, data@) =~= Seq::<ResultModel>::empty());
            assert(result_models(results@) =~= before + schema_column_results(column_name@, *column_schema, data@));
        }
    }
    assert(schema.columns@.take(n as int) =~= schema.columns@);
    let total = results.len();
    let ghost summary = result_models(results@);
    let mut checks_pass = true;
    for i in 0..total
        invariant
            total == results@.len(),
            summary == result_models(results@),
            checks_pass == (forall|j: int| 0 <= j < i ==> (#[trigger] summary[j]).pass),
    {
        assert(summary[i as int].pass == results@[i as int].pass);
        checks_pass = checks_pass && results[i].pass;
    }
    ValidationReport { checks_pass, results }
}

/// How many of the results pass.
pub open spec fn passed_count(results: Seq<ResultModel>) -> nat
    decreases results.len(),
{
    if results.len() == 0 {
        0
    } else {
        passed_count(results.drop_last()) + if results.last().pass {
            1nat
        } else {
            0nat
        }
    }
}

/// The lines that show one result: its column, rule and verdict, and, when
/// it fails, the failed values in their `Debug` form.
pub open spec fn result_lines(r: ResultModel) -> Seq<char> {
    "["@ + r.column_name + "] "@ + r.rule_name + " \u{2014} "@ + (if r.pass {
        "\u{2713} PASS\n"@
    } else {
        "\u{2717} FAIL\n"@ + "    failed values: "@ + list_debug_form(r.failed_values) + "\n"@
    })
}

/// The lines of all the results, in order.
pub open spec fn all_result_lines(results: Seq<ResultModel>) -> Seq<char>
    decreases results.len(),
{
    if results.len() == 0 {
        Seq::empty()
    } else {
        all_result_lines(results.drop_last()) + result_lines(results.last())
    }
}

/// The text of a report: whether it passed, how many rules passed and
/// failed, a line of forty dashes, then the lines of each result.
pub open spec fn report_text(checks_pass: bool, results: Seq<ResultModel>) -> Seq<char> {
    let passed = passed_count(results);
    "Validation: "@ + (if checks_pass {
        "PASSED"@
    } else {
        "FAILED"@
    }) + "\nSummary: "@ + decimal(results.len()) + " rules | "@ + decimal(passed) + " passed | "@
        + decimal((results.len() - passed) as nat) + " failed\n"@
        + "----------------------------------------\n"@ + all_result_lines(results)
}

proof fn lemma_passed_count_bounded(results: Seq<ResultModel>)
    ensures
        passed_count(results) <= results.len(),
    decreases results.len(),
{
    if results.len() > 0 {
        lemma_passed_count_bounded(results.drop_last());
    }
}

impl ValidationReport {
    /// The report as text, for people to read.
    #[verifier::rlimit(40)]
    #[verifier::spinoff_prover]
    pub fn render(&self) -> (text: String)
        ensures
            text@ == report_text(self.checks_pass, result_models(self.results@)),
    {
        let ghost all = result_models(self.results@);
        let mut lines = String::new();
        let mut passed: usize = 0;
        let n = self.results.len();
        for i in 0..n
            invariant
                n == self.results@.len(),
                all == result_models(self.results@),
                passed == passed_count(all.take(i as int)),
                passed <= i,
                lines@ == all_result_lines(all.take(i as int)),
        {
            let r = &self.results[i];
            let ghost prefix = all.take(i + 1);
            assert(prefix.drop_last() =~= all.take(i as int));
            assert(prefix.last() == r@);
            let ghost before = lines@;
            push_text(&mut lines, "[");
            push_text(&mut lines, r.column_name.as_str());
            push_text(&mut lines, "] ");
            push_text(&mut lines, r.rule_name.as_str());
            push_text(&mut lines, " \u{2014} ");
            if r.pass {
                push_text(&mut lines, "\u{2713} PASS\n");
                passed = passed + 1;
            } else {
                push_text(&mut lines, "\u{2717} FAIL\n");
                push_text(&mut lines, "    failed values: ");
                push_list_debug(&mut lines, &r.failed_values);
                push_text(&mut lines, "\n");
            }
            assert(lines@ =~= before + result_lines(r@));
        }
        assert(all.take(n as int) =~= all);
        proof {
            lemma_passed_count_bounded(all);
        }
        let mut text = String::new();
        push_text(&mut text, "Validation: ");
        if self.checks_pass {
            push_text(&mut text, "PASSED");
        } else {
            push_text(&mut text, "FAILED");
        }
        push_text(&mut text, "\nSummary: ");
        push_decimal(&mut text, n);
        push_text(&mut text, " rules | ");
        push_decimal(&mut text, passed);
        push_text(&mut text, " passed | ");
        push_decimal(&mut text, n - passed);
        push_text(&mut text, " failed\n");
        push_text(&mut text, "----------------------------------------\n");
        push_text(&mut text, lines.as_str());
        assert(text@ =~= report_text(self.checks_pass, all));
        text
    }
}

} // verus!
