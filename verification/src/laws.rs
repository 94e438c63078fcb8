//! Properties of the rules and of the reports that hold for all inputs.
use vstd::prelude::*;
use vstd::multiset::Multiset;
use crate::binary64::{
    equal, exponent_field, fraction_field, is_finite, is_nan, lemma_zero, less, less_eq,
    magnitude, order_key, scaled_value, sign_set, zero,
};
use vstd::arithmetic::power2::{lemma_pow2_pos, lemma_pow2_strictly_increases, lemma_pow2_unfold, pow2};
use crate::dates::parsed_day;
use crate::rules::{duplicate_complaint, duplicate_complaints, repeated_values, seen_earlier, RuleModel};
use crate::text::{has_prefix, has_suffix, occurs_at, texts};
use crate::schema::ColumnSchema;
use crate::validator::{
    all_pass, cell_texts, column_results, failed_texts, flag_on, lookup, report_results,
    schema_column_results, schema_rules, unique_result, Cell, ColumnData, ResultModel,
};

verus! {

/// A rule's list of failed values is empty exactly when the rule accepts
/// every value of the column.
pub proof fn lemma_no_failures_iff_all_accepted(rule: RuleModel, cells: Seq<Cell>)
    ensures
        failed_texts(rule, cells).len() == 0 <==> forall|i: int|
            0 <= i < cells.len() ==> !rule.rejects(#[trigger] cells[i].text@, cells[i].reading),
    decreases cells.len(),
{
    if cells.len() > 0 {
        let rest = cells.drop_last();
        lemma_no_failures_iff_all_accepted(rule, rest);
        assert forall|i: int| 0 <= i < rest.len() implies rest[i] == cells[i] by {}
        if failed_texts(rule, cells).len() == 0 {
            assert forall|i: int| 0 <= i < cells.len() implies !rule.rejects(
                #[trigger] cells[i].text@,
                cells[i].reading,
            ) by {
                if i < rest.len() {
                    assert(rest[i] == cells[i]);
                }
            }
        }
    }
}

/// On a column without values every rule passes.
pub proof fn lemma_empty_column_passes(rule: RuleModel)
    ensures
        failed_texts(rule, Seq::<Cell>::empty()).len() == 0,
{
}

/// The uniqueness check finds no repeated value, and so makes no
/// complaint, exactly when no two values are equal.
pub proof fn lemma_unique_iff_distinct(values: Seq<Seq<char>>)
    ensures
        repeated_values(values).len() == 0 <==> forall|i: int, j: int|
            0 <= i < j < values.len() ==> values[i] != values[j],
        duplicate_complaints(values).len() == repeated_values(values).len(),
    decreases values.len(),
{
    if values.len() > 0 {
        let rest = values.drop_last();
        let last = values.len() - 1;
        lemma_unique_iff_distinct(rest);
        if repeated_values(values).len() == 0 {
            assert(!seen_earlier(values, last));
            assert forall|i: int, j: int| 0 <= i < j < values.len() implies values[i]
                != values[j] by {
                if j < last {
                    assert(rest[i] == values[i] && rest[j] == values[j]);
                } else {
                    assert(!(0 <= i < last && values[i] == values[last]));
                }
            }
        } else {
            if seen_earlier(values, last) {
                let i = choose|i: int| 0 <= i < last && values[i] == values[last];
                assert(values[i] == values[last]);
            } else {
                let (i, j) = choose|i: int, j: int| 0 <= i < j < rest.len() && rest[i] == rest[j];
                assert(rest[i] == values[i] && rest[j] == values[j]);
            }
        }
    }
}

/// `NotNull` and `NotEmpty` turn down the same values: the blank ones.
pub proof fn lemma_not_null_same_as_not_empty(value: Seq<char>, reading: Option<u64>)
    ensures
        RuleModel::NotNull.rejects(value, reading) == RuleModel::NotEmpty.rejects(value, reading),
{
}

/// `IsPositive` acts as `GreaterThan` zero, and `IsNegative` as `LessThan`
/// zero, whatever text shows the zero.
pub proof fn lemma_sign_rules_compare_with_zero(value: Seq<char>, reading: Option<u64>, shown: Seq<char>)
    ensures
        RuleModel::IsPositive.rejects(value, reading) == RuleModel::GreaterThan(
            zero(),
            shown,
        ).rejects(value, reading),
        RuleModel::IsNegative.rejects(value, reading) == RuleModel::LessThan(
            zero(),
            shown,
        ).rejects(value, reading),
{
}

/// Every numeric rule turns down a value that is not a number.
pub proof fn lemma_numeric_rules_need_numbers(value: Seq<char>, t: u64, u: u64, shown: Seq<char>)
    ensures
        RuleModel::IsPositive.rejects(value, None),
        RuleModel::IsNegative.rejects(value, None),
        RuleModel::IsFinite.rejects(value, None),
        RuleModel::GreaterThan(t, shown).rejects(value, None),
        RuleModel::GreaterEqualThan(t, shown).rejects(value, None),
        RuleModel::LessEqualThan(t, shown).rejects(value, None),
        RuleModel::LessThan(t, shown).rejects(value, None),
        RuleModel::Equal(t, shown).rejects(value, None),
        RuleModel::Between(t, shown, u, shown).rejects(value, None),
{
}

/// `Between` accepts a value exactly when both `GreaterEqualThan` its low
/// bound and `LessEqualThan` its high bound accept it.
pub proof fn lemma_between_is_both_bounds(
    value: Seq<char>,
    reading: Option<u64>,
    lo: u64,
    lo_shown: Seq<char>,
    hi: u64,
    hi_shown: Seq<char>,
)
    ensures
        !RuleModel::Between(lo, lo_shown, hi, hi_shown).rejects(value, reading) <==> (
        !RuleModel::GreaterEqualThan(lo, lo_shown).rejects(value, reading)
            && !RuleModel::LessEqualThan(hi, hi_shown).rejects(value, reading)),
{
}

/// For a bound that is not NaN, a number that is not NaN is accepted by
/// exactly one of `GreaterThan` and `LessEqualThan`, and by exactly one of
/// `LessThan` and `GreaterEqualThan`. A NaN is turned down by all four.
pub proof fn lemma_bounds_split_numbers(value: Seq<char>, n: u64, t: u64, shown: Seq<char>)
    requires
        !is_nan(t),
    ensures
        !is_nan(n) ==> (RuleModel::GreaterThan(t, shown).rejects(value, Some(n))
            != RuleModel::LessEqualThan(t, shown).rejects(value, Some(n))),
        !is_nan(n) ==> (RuleModel::LessThan(t, shown).rejects(value, Some(n))
            != RuleModel::GreaterEqualThan(t, shown).rejects(value, Some(n))),
        is_nan(n) ==> RuleModel::GreaterThan(t, shown).rejects(value, Some(n))
            && RuleModel::LessEqualThan(t, shown).rejects(value, Some(n))
            && RuleModel::LessThan(t, shown).rejects(value, Some(n))
            && RuleModel::GreaterEqualThan(t, shown).rejects(value, Some(n)),
{
}

/// `LengthBetween` accepts a value exactly when both `MinLength` of its
/// least and `MaxLength` of its greatest length accept it.
pub proof fn lemma_length_between_is_both_bounds(value: Seq<char>, reading: Option<u64>, min: usize, max: usize)
    ensures
        !RuleModel::LengthBetween(min, max).rejects(value, reading) <==> (
        !RuleModel::MinLength(min).rejects(value, reading) && !RuleModel::MaxLength(max).rejects(
            value,
            reading,
        )),
{
}

/// A value that starts or ends with a text contains it.
pub proof fn lemma_affixes_are_contained(value: Seq<char>, reading: Option<u64>, part: Seq<char>)
    ensures
        !RuleModel::StartsWith(part).rejects(value, reading) ==> !RuleModel::Contains(part).rejects(
            value,
            reading,
        ),
        !RuleModel::EndsWith(part).rejects(value, reading) ==> !RuleModel::Contains(part).rejects(
            value,
            reading,
        ),
{
    if has_prefix(value, part) {
        assert(occurs_at(value, part, 0));
    }
    if has_suffix(value, part) {
        assert(occurs_at(value, part, value.len() - part.len()));
    }
}

/// A date accepted both by `AfterDate` of `from` and by `BeforeDate` of `to`,
/// in one format, is accepted by `BetweenDates` of the two.
pub proof fn lemma_after_and_before_make_between(
    value: Seq<char>,
    reading: Option<u64>,
    from: Seq<char>,
    to: Seq<char>,
    format: Seq<char>,
)
    ensures
        (!RuleModel::AfterDate(from, format).rejects(value, reading) && !RuleModel::BeforeDate(
            to,
            format,
        ).rejects(value, reading)) ==> !RuleModel::BetweenDates(from, to, format).rejects(
            value,
            reading,
        ),
{
}

/// `DateFormat` accepts exactly the values that read as dates in its format,
/// and every date comparison turns down the values it does not.
pub proof fn lemma_date_rules_need_dates(value: Seq<char>, reading: Option<u64>, a: Seq<char>, b: Seq<char>, format: Seq<char>)
    ensures
        !RuleModel::DateFormat(format).rejects(value, reading) <==> parsed_day(value, format) is Some,
        parsed_day(value, format) is None ==> RuleModel::AfterDate(a, format).rejects(value, reading)
            && RuleModel::BeforeDate(a, format).rejects(value, reading)
            && RuleModel::BetweenDates(a, b, format).rejects(value, reading),
{
}

/// Neither zero has a sign as the sign rules see it: `IsPositive` and
/// `IsNegative` both turn down positive and negative zero.
pub proof fn lemma_zeros_have_no_sign(value: Seq<char>)
    ensures
        RuleModel::IsPositive.rejects(value, Some(0u64)),
        RuleModel::IsNegative.rejects(value, Some(0u64)),
        RuleModel::IsPositive.rejects(value, Some(0x8000_0000_0000_0000u64)),
        RuleModel::IsNegative.rejects(value, Some(0x8000_0000_0000_0000u64)),
{
    lemma_zero();
    assert(((0x8000_0000_0000_0000u64 >> 52u64) & 0x7ffu64) == 0u64) by (bit_vector);
    assert((0x8000_0000_0000_0000u64 & 0x7fff_ffff_ffff_ffffu64) == 0u64) by (bit_vector);
    assert((0x8000_0000_0000_0000u64 >> 63u64) == 1u64) by (bit_vector);
    assert(!is_nan(0x8000_0000_0000_0000u64) && order_key(0x8000_0000_0000_0000u64) == 0);
}

/// Every result passes exactly when the results of each part do.
pub proof fn lemma_all_pass_split(a: Seq<ResultModel>, b: Seq<ResultModel>)
    ensures
        all_pass(a + b) <==> all_pass(a) && all_pass(b),
{
    if all_pass(a + b) {
        assert forall|i: int| 0 <= i < a.len() implies (#[trigger] a[i]).pass by {
            assert((a + b)[i] == a[i]);
        }
        assert forall|i: int| 0 <= i < b.len() implies (#[trigger] b[i]).pass by {
            assert((a + b)[a.len() + i] == b[i]);
        }
    }
    if all_pass(a) && all_pass(b) {
        assert forall|i: int| 0 <= i < (a + b).len() implies (#[trigger] (a + b)[i]).pass by {
            if i < a.len() {
                assert((a + b)[i] == a[i]);
            } else {
                assert((a + b)[i] == b[i - a.len()]);
            }
        }
    }
}

/// Every rule accepts every one of the cells.
pub open spec fn rules_accept_all(rules: Seq<RuleModel>, cells: Seq<Cell>) -> bool {
    forall|k: int, i: int|
        0 <= k < rules.len() && 0 <= i < cells.len() ==> !(#[trigger] rules[k]).rejects(
            #[trigger] cells[i].text@,
            cells[i].reading,
        )
}

/// No two cells hold the same text.
pub open spec fn texts_distinct(cells: Seq<Cell>) -> bool {
    forall|i: int, j: int| 0 <= i < j < cells.len() ==> cells[i].text@ != cells[j].text@
}

/// A column of the schema is clean when the data lacks it, or when every
/// rule accepts every value and, where asked, no value repeats.
pub open spec fn column_clean(name: Seq<char>, schema: ColumnSchema, data: Seq<ColumnData>) -> bool {
    match lookup(data, name) {
        None => true,
        Some(column) => rules_accept_all(schema_rules(schema), column.cells@) && (flag_on(
            schema.unique,
        ) ==> texts_distinct(column.cells@)),
    }
}

proof fn lemma_column_results_pass(name: Seq<char>, rules: Seq<RuleModel>, cells: Seq<Cell>)
    ensures
        all_pass(column_results(name, rules, cells)) <==> rules_accept_all(rules, cells),
{
    let results = column_results(name, rules, cells);
    assert forall|k: int| 0 <= k < rules.len() implies (#[trigger] results[k]).pass
        <==> forall|i: int| 0 <= i < cells.len() ==> !rules[k].rejects(
            #[trigger] cells[i].text@,
            cells[i].reading,
        ) by {
        lemma_no_failures_iff_all_accepted(rules[k], cells);
    }
    if all_pass(results) {
        assert forall|k: int, i: int|
            0 <= k < rules.len() && 0 <= i < cells.len() implies !(#[trigger] rules[k]).rejects(
            #[trigger] cells[i].text@,
            cells[i].reading,
        ) by {
            assert(results[k].pass);
        }
    }
    if rules_accept_all(rules, cells) {
        assert forall|k: int| 0 <= k < results.len() implies (#[trigger] results[k]).pass by {
            assert forall|i: int| 0 <= i < cells.len() implies !rules[k].rejects(
                #[trigger] cells[i].text@,
                cells[i].reading,
            ) by {
                assert(!rules[k].rejects(cells[i].text@, cells[i].reading));
            }
        }
    }
}

proof fn lemma_column_clean(name: Seq<char>, schema: ColumnSchema, data: Seq<ColumnData>)
    ensures
        all_pass(schema_column_results(name, schema, data)) <==> column_clean(name, schema, data),
{
    match lookup(data, name) {
        None => {},
        Some(column) => {
            let cells = column.cells@;
            let main = column_results(name, schema_rules(schema), cells);
            lemma_column_results_pass(name, schema_rules(schema), cells);
            if flag_on(schema.unique) {
                let extra = seq![unique_result(name, cells)];
                lemma_all_pass_split(main, extra);
                lemma_unique_iff_distinct(cell_texts(cells));
                assert(all_pass(extra) <==> extra[0].pass);
                let t = cell_texts(cells);
                assert forall|i: int| 0 <= i < cells.len() implies #[trigger] t[i] == cells[i].text@ by {}
                if texts_distinct(cells) {
                    assert forall|i: int, j: int| 0 <= i < j < t.len() implies t[i] != t[j] by {
                        assert(t[i] == cells[i].text@ && t[j] == cells[j].text@);
                    }
                }
                if forall|i: int, j: int| 0 <= i < j < t.len() ==> t[i] != t[j] {
                    assert forall|i: int, j: int| 0 <= i < j < cells.len() implies cells[i].text@
                        != cells[j].text@ by {
                        assert(t[i] == cells[i].text@ && t[j] == cells[j].text@);
                    }
                }
            } else {
                assert(main + Seq::<ResultModel>::empty() =~= main);
            }
        },
    }
}

/// The report passes exactly when every column of the schema that the data
/// has meets all its rules: every rule accepts every value, and a column
/// asked to be unique holds no repeated value.
pub proof fn lemma_report_passes_iff_all_clean(columns: Seq<(String, ColumnSchema)>, data: Seq<ColumnData>)
    ensures
        all_pass(report_results(columns, data)) <==> forall|c: int|
            0 <= c < columns.len() ==> column_clean(#[trigger] columns[c].0@, columns[c].1, data),
    decreases columns.len(),
{
    if columns.len() > 0 {
        let rest = columns.drop_last();
        let last = columns.last();
        lemma_report_passes_iff_all_clean(rest, data);
        lemma_all_pass_split(report_results(rest, data), schema_column_results(last.0@, last.1, data));
        lemma_column_clean(last.0@, last.1, data);
        assert forall|c: int| 0 <= c < rest.len() implies rest[c] == columns[c] by {}
        if forall|c: int| 0 <= c < columns.len() ==> column_clean(#[trigger] columns[c].0@, columns[c].1, data) {
            assert(column_clean(columns[columns.len() - 1].0@, columns[columns.len() - 1].1, data));
            assert forall|c: int| 0 <= c < rest.len() implies column_clean(#[trigger] rest[c].0@, rest[c].1, data) by {
                assert(column_clean(columns[c].0@, columns[c].1, data));
            }
        }
    }
}

/// Among numbers that are not NaN, `<` is a strict total order with `<=`
/// as its reflexive closure, and `==` holds where both `<=` do; a NaN
/// compares as neither smaller, larger nor equal to anything.
pub proof fn lemma_comparisons_order_numbers(a: u64, b: u64, c: u64)
    ensures
        !is_nan(a) && !is_nan(b) ==> (less(a, b) <==> !less_eq(b, a)),
        !is_nan(a) && !is_nan(b) ==> (less_eq(a, b) || less_eq(b, a)),
        !is_nan(a) && !is_nan(b) ==> (equal(a, b) <==> less_eq(a, b) && less_eq(b, a)),
        less(a, b) && less(b, c) ==> less(a, c),
        less_eq(a, b) && less_eq(b, c) ==> less_eq(a, c),
        !less(a, a),
        is_nan(a) ==> !less(a, b) && !less(b, a) && !less_eq(a, b) && !less_eq(b, a) && !equal(
            a,
            b,
        ),
{
}

/// A value above a bound is above every lower bound, and one below a bound
/// is below every higher one.
pub proof fn lemma_bounds_are_monotone(
    value: Seq<char>,
    reading: Option<u64>,
    low: u64,
    high: u64,
    low_shown: Seq<char>,
    high_shown: Seq<char>,
)
    requires
        less_eq(low, high),
    ensures
        !RuleModel::GreaterThan(high, high_shown).rejects(value, reading)
            ==> !RuleModel::GreaterThan(low, low_shown).rejects(value, reading),
        !RuleModel::LessThan(low, low_shown).rejects(value, reading)
            ==> !RuleModel::LessThan(high, high_shown).rejects(value, reading),
{
}

/// A value that occurs `k > 0` times among the values stands `k - 1` times
/// among the repeated values.
pub proof fn lemma_repeat_counts(values: Seq<Seq<char>>, x: Seq<char>)
    ensures
        repeated_values(values).to_multiset().count(x) == if values.to_multiset().count(x) > 0 {
            (values.to_multiset().count(x) - 1) as nat
        } else {
            0nat
        },
    decreases values.len(),
{
    broadcast use vstd::seq_lib::group_to_multiset_ensures;

    if values.len() == 0 {
        assert(values.to_multiset() =~= Multiset::empty());
        assert(repeated_values(values).to_multiset() =~= Multiset::empty());
    } else {
        let rest = values.drop_last();
        let last = values.last();
        lemma_repeat_counts(rest, x);
        assert(values =~= rest.push(last));
        assert(seen_earlier(values, values.len() - 1) == rest.contains(last)) by {
            if rest.contains(last) {
                let j = choose|j: int| 0 <= j < rest.len() && rest[j] == last;
                assert(values[j] == values[values.len() - 1]);
            }
            if seen_earlier(values, values.len() - 1) {
                let j = choose|j: int| 0 <= j < values.len() - 1 && #[trigger] values[j] == values[values.len() - 1];
                assert(rest[j] == last);
            }
        }
    }
}

/// Reordering the values reorders the repeated values and the complaints
/// and changes nothing else: each value occurring `k` times yields `k - 1`
/// of each, wherever its copies stand.
pub proof fn lemma_unique_ignores_order(values: Seq<Seq<char>>, reordered: Seq<Seq<char>>)
    requires
        reordered.to_multiset() == values.to_multiset(),
    ensures
        repeated_values(reordered).to_multiset() == repeated_values(values).to_multiset(),
        duplicate_complaints(reordered).to_multiset() == duplicate_complaints(values).to_multiset(),
{
    assert forall|x: Seq<char>| #[trigger] repeated_values(reordered).to_multiset().count(x)
        == repeated_values(values).to_multiset().count(x) by {
        lemma_repeat_counts(values, x);
        lemma_repeat_counts(reordered, x);
    }
    assert(repeated_values(reordered).to_multiset() =~= repeated_values(values).to_multiset());
    lemma_map_keeps_permutation(
        repeated_values(reordered),
        repeated_values(values),
        |v: Seq<char>| duplicate_complaint(v),
    );
    assert(duplicate_complaints(reordered) == repeated_values(reordered).map_values(
        |v: Seq<char>| duplicate_complaint(v),
    ));
    assert(duplicate_complaints(values) == repeated_values(values).map_values(
        |v: Seq<char>| duplicate_complaint(v),
    ));
}

/// Mapping two sequences that hold the same items, in any order, gives two
/// sequences that hold the same items.
pub proof fn lemma_map_keeps_permutation<A, B>(a: Seq<A>, b: Seq<A>, f: spec_fn(A) -> B)
    requires
        a.to_multiset() == b.to_multiset(),
    ensures
        a.map_values(f).to_multiset() == b.map_values(f).to_multiset(),
    decreases a.len(),
{
    broadcast use vstd::seq_lib::group_to_multiset_ensures;

    if a.len() == 0 {
        assert(a.to_multiset().len() == 0);
        assert(b.to_multiset().len() == 0);
        assert(b.len() == 0);
        assert(a.map_values(f) =~= Seq::<B>::empty());
        assert(b.map_values(f) =~= Seq::<B>::empty());
    } else {
        let x = a.last();
        let rest = a.drop_last();
        assert(a =~= rest.push(x));
        assert(b.to_multiset().count(x) > 0);
        assert(b.contains(x));
        let i = choose|i: int| 0 <= i < b.len() && b[i] == x;
        let b_rest = b.remove(i);
        assert(b_rest.to_multiset() =~= rest.to_multiset());
        lemma_map_keeps_permutation(rest, b_rest, f);
        assert(a.map_values(f) =~= rest.map_values(f).push(f(x)));
        let mb = b.map_values(f);
        assert(mb.remove(i) =~= b_rest.map_values(f));
        assert(mb[i] == f(x));
        assert(mb.remove(i).to_multiset() == mb.to_multiset().remove(f(x)));
        assert(mb.to_multiset().count(f(x)) > 0) by {
            assert(mb.contains(f(x)));
        }
        assert(mb.to_multiset() =~= mb.to_multiset().remove(f(x)).insert(f(x)));
    }
}

/// The fields of a pattern: the magnitude is the exponent field over the
/// fraction field, and the sign is its top bit.
proof fn lemma_fields(b: u64)
    ensures
        magnitude(b) == exponent_field(b) * 0x10_0000_0000_0000 + fraction_field(b),
        fraction_field(b) < 0x10_0000_0000_0000,
        exponent_field(b) <= 0x7ff,
        sign_set(b) || (b >> 63u64) == 0,
{
    assert((b & 0x7fff_ffff_ffff_ffffu64) == ((b >> 52u64) & 0x7ffu64) * 0x10_0000_0000_0000u64
        + (b & 0xf_ffff_ffff_ffffu64)) by (bit_vector);
    assert((b & 0xf_ffff_ffff_ffffu64) < 0x10_0000_0000_0000u64) by (bit_vector);
    assert(((b >> 52u64) & 0x7ffu64) <= 0x7ffu64) by (bit_vector);
    assert((b >> 63u64) == 1u64 || (b >> 63u64) == 0u64) by (bit_vector);
}

/// The unsigned value of exponent field `e` and fraction field `f`, times 2^1074.
spec fn unsigned_scaled(e: int, f: int) -> int {
    if e == 0 {
        f
    } else {
        (f + 0x10_0000_0000_0000int) * pow2((e - 1) as nat)
    }
}

proof fn lemma_unsigned_scaled_nonnegative(e: int, f: int)
    requires
        0 <= e,
        0 <= f,
    ensures
        unsigned_scaled(e, f) >= 0,
        unsigned_scaled(e, f) == 0 <==> e == 0 && f == 0,
{
    if e > 0 {
        lemma_pow2_pos((e - 1) as nat);
        let p = pow2((e - 1) as nat) as int;
        assert((f + 0x10_0000_0000_0000int) * p > 0) by (nonlinear_arith)
            requires
                f >= 0,
                p > 0,
        ;
    }
}

/// Ordering patterns by exponent, then fraction, orders their values.
proof fn lemma_unsigned_scaled_increases(e1: int, f1: int, e2: int, f2: int)
    requires
        0 <= e1,
        0 <= e2,
        0 <= f1 < 0x10_0000_0000_0000,
        0 <= f2 < 0x10_0000_0000_0000,
        e1 < e2 || (e1 == e2 && f1 < f2),
    ensures
        unsigned_scaled(e1, f1) < unsigned_scaled(e2, f2),
{
    let big = 0x10_0000_0000_0000int;
    if e1 == e2 {
        if e1 > 0 {
            lemma_pow2_pos((e1 - 1) as nat);
            let p = pow2((e1 - 1) as nat) as int;
            assert((f1 + big) * p < (f2 + big) * p) by (nonlinear_arith)
                requires
                    f1 < f2,
                    p > 0,
            ;
        }
    } else {
        lemma_pow2_pos((e2 - 1) as nat);
        let p2 = pow2((e2 - 1) as nat) as int;
        assert(big * p2 <= (f2 + big) * p2) by (nonlinear_arith)
            requires
                f2 >= 0,
                p2 > 0,
        ;
        if e1 == 0 {
            assert(big <= big * p2) by (nonlinear_arith)
                requires
                    p2 >= 1,
                    big > 0,
            ;
        } else {
            lemma_pow2_pos((e1 - 1) as nat);
            lemma_pow2_unfold(e1 as nat);
            let p1 = pow2((e1 - 1) as nat) as int;
            let q1 = pow2(e1 as nat) as int;
            if e1 < e2 - 1 {
                lemma_pow2_strictly_increases(e1 as nat, (e2 - 1) as nat);
            }
            assert(q1 <= p2);
            assert((f1 + big) * p1 < big * q1) by (nonlinear_arith)
                requires
                    f1 < big,
                    q1 == 2 * p1,
                    p1 > 0,
            ;
            assert(big * q1 <= big * p2) by (nonlinear_arith)
                requires
                    q1 <= p2,
                    big > 0,
            ;
        }
    }
}

/// The scaled value of a finite pattern in terms of its order key's parts.
proof fn lemma_scaled_parts(b: u64)
    ensures
        scaled_value(b) == if sign_set(b) {
            -unsigned_scaled(exponent_field(b) as int, fraction_field(b) as int)
        } else {
            unsigned_scaled(exponent_field(b) as int, fraction_field(b) as int)
        },
{
}

/// On finite numbers, the comparisons `<`, `<=` and `==` answer as the real
/// values of the numbers compare.
pub proof fn lemma_comparisons_follow_values(a: u64, b: u64)
    requires
        exponent_field(a) != 0x7ff,
        exponent_field(b) != 0x7ff,
    ensures
        less(a, b) <==> scaled_value(a) < scaled_value(b),
        less_eq(a, b) <==> scaled_value(a) <= scaled_value(b),
        equal(a, b) <==> scaled_value(a) == scaled_value(b),
{
    lemma_fields(a);
    lemma_fields(b);
    let ea = exponent_field(a) as int;
    let fa = fraction_field(a) as int;
    let eb = exponent_field(b) as int;
    let fb = fraction_field(b) as int;
    let ua = unsigned_scaled(ea, fa);
    let ub = unsigned_scaled(eb, fb);
    lemma_unsigned_scaled_nonnegative(ea, fa);
    lemma_unsigned_scaled_nonnegative(eb, fb);
    if ea < eb || (ea == eb && fa < fb) {
        lemma_unsigned_scaled_increases(ea, fa, eb, fb);
    }
    if eb < ea || (ea == eb && fb < fa) {
        lemma_unsigned_scaled_increases(eb, fb, ea, fa);
    }
    assert(magnitude(a) < magnitude(b) <==> ua < ub);
    assert(magnitude(a) == magnitude(b) <==> ua == ub);
    assert(magnitude(a) == 0 <==> ua == 0);
    assert(magnitude(b) == 0 <==> ub == 0);
    lemma_scaled_parts(a);
    lemma_scaled_parts(b);
}

/// The two infinities bound every number that is not NaN, and every finite
/// number lies strictly between them.
pub proof fn lemma_infinities_bound_numbers(a: u64)
    requires
        !is_nan(a),
    ensures
        less_eq(a, 0x7ff0_0000_0000_0000u64),
        less_eq(0xfff0_0000_0000_0000u64, a),
        exponent_field(a) != 0x7ff ==> less(a, 0x7ff0_0000_0000_0000u64)
            && less(0xfff0_0000_0000_0000u64, a),
{
    lemma_fields(a);
    lemma_fields(0x7ff0_0000_0000_0000u64);
    lemma_fields(0xfff0_0000_0000_0000u64);
    assert(((0x7ff0_0000_0000_0000u64 >> 52u64) & 0x7ffu64) == 0x7ffu64) by (bit_vector);
    assert((0x7ff0_0000_0000_0000u64 & 0xf_ffff_ffff_ffffu64) == 0u64) by (bit_vector);
    assert((0x7ff0_0000_0000_0000u64 >> 63u64) == 0u64) by (bit_vector);
    assert(((0xfff0_0000_0000_0000u64 >> 52u64) & 0x7ffu64) == 0x7ffu64) by (bit_vector);
    assert((0xfff0_0000_0000_0000u64 & 0xf_ffff_ffff_ffffu64) == 0u64) by (bit_vector);
    assert((0xfff0_0000_0000_0000u64 >> 63u64) == 1u64) by (bit_vector);
}

/// Positive zero has the value zero.
proof fn lemma_zero_value()
    ensures
        scaled_value(zero()) == 0,
        exponent_field(zero()) != 0x7ff,
{
    assert(((0u64 >> 52u64) & 0x7ffu64) == 0u64) by (bit_vector);
    assert((0u64 & 0xf_ffff_ffff_ffffu64) == 0u64) by (bit_vector);
    assert((0u64 >> 63u64) == 0u64) by (bit_vector);
}

/// On numbers that are neither infinite nor NaN, each comparison rule
/// accepts exactly the values whose real value stands to the bound's as the
/// rule asks, and the sign rules compare the real value with zero.
pub proof fn lemma_number_rules_follow_values(
    value: Seq<char>,
    n: u64,
    t: u64,
    u: u64,
    shown: Seq<char>,
    high_shown: Seq<char>,
)
    requires
        exponent_field(n) != 0x7ff,
        exponent_field(t) != 0x7ff,
        exponent_field(u) != 0x7ff,
    ensures
        !RuleModel::GreaterThan(t, shown).rejects(value, Some(n)) <==> scaled_value(n)
            > scaled_value(t),
        !RuleModel::GreaterEqualThan(t, shown).rejects(value, Some(n)) <==> scaled_value(n)
            >= scaled_value(t),
        !RuleModel::LessEqualThan(t, shown).rejects(value, Some(n)) <==> scaled_value(n)
            <= scaled_value(t),
        !RuleModel::LessThan(t, shown).rejects(value, Some(n)) <==> scaled_value(n)
            < scaled_value(t),
        !RuleModel::Equal(t, shown).rejects(value, Some(n)) <==> scaled_value(n)
            == scaled_value(t),
        !RuleModel::Between(t, shown, u, high_shown).rejects(value, Some(n)) <==> scaled_value(t)
            <= scaled_value(n) <= scaled_value(u),
        !RuleModel::IsPositive.rejects(value, Some(n)) <==> scaled_value(n) > 0,
        !RuleModel::IsNegative.rejects(value, Some(n)) <==> scaled_value(n) < 0,
        !RuleModel::IsFinite.rejects(value, Some(n)),
{
    lemma_zero_value();
    lemma_comparisons_follow_values(n, t);
    lemma_comparisons_follow_values(t, n);
    lemma_comparisons_follow_values(n, u);
    lemma_comparisons_follow_values(n, zero());
    lemma_comparisons_follow_values(zero(), n);
}

/// `IsFinite` turns down a number exactly when all its exponent bits are
/// set: the two infinities, of either sign, and every NaN.
pub proof fn lemma_is_finite_turns_down_infinities_and_nans(value: Seq<char>, n: u64)
    ensures
        RuleModel::IsFinite.rejects(value, Some(n)) <==> (n & 0x7ff0_0000_0000_0000u64)
            == 0x7ff0_0000_0000_0000u64,
        RuleModel::IsFinite.rejects(value, Some(0x7ff0_0000_0000_0000u64)),
        RuleModel::IsFinite.rejects(value, Some(0xfff0_0000_0000_0000u64)),
        is_nan(n) ==> RuleModel::IsFinite.rejects(value, Some(n)),
{
    assert(((n >> 52u64) & 0x7ffu64) == 0x7ffu64 <==> (n & 0x7ff0_0000_0000_0000u64)
        == 0x7ff0_0000_0000_0000u64) by (bit_vector);
    assert(((0x7ff0_0000_0000_0000u64 >> 52u64) & 0x7ffu64) == 0x7ffu64) by (bit_vector);
    assert(((0xfff0_0000_0000_0000u64 >> 52u64) & 0x7ffu64) == 0x7ffu64) by (bit_vector);
}

/// `IsIn` accepts a value exactly when it equals one of the allowed texts,
/// whether or not it reads as a number.
pub proof fn lemma_is_in_accepts_listed_values(
    allowed: Seq<Seq<char>>,
    value: Seq<char>,
    reading: Option<u64>,
)
    ensures
        !RuleModel::IsIn(allowed).rejects(value, reading) <==> exists|i: int|
            0 <= i < allowed.len() && #[trigger] allowed[i] == value,
{
}

/// Whether `r` is the rule that a field of `s` asks for, with that field's
/// value: a flag set to `true`, a bound, a text or a length that is set, or
/// a date comparison whose date and format are both set.
pub open spec fn asked_for(s: ColumnSchema, r: RuleModel) -> bool {
    match r {
        RuleModel::NotNull => s.not_null == Some(true),
        RuleModel::NotEmpty => s.not_empty == Some(true),
        RuleModel::IsPositive => s.is_positive == Some(true),
        RuleModel::IsNegative => s.is_negative == Some(true),
        RuleModel::IsFinite => s.is_finite == Some(true),
        RuleModel::GreaterThan(t, shown) => s.gt matches Some(b) && b.bits == t && b.shown@ == shown,
        RuleModel::GreaterEqualThan(t, shown) => s.ge matches Some(b) && b.bits == t && b.shown@
            == shown,
        RuleModel::LessEqualThan(t, shown) => s.le matches Some(b) && b.bits == t && b.shown@
            == shown,
        RuleModel::LessThan(t, shown) => s.lt matches Some(b) && b.bits == t && b.shown@ == shown,
        RuleModel::Equal(t, shown) => s.equal matches Some(b) && b.bits == t && b.shown@ == shown,
        RuleModel::Between(lo, lo_shown, hi, hi_shown) => s.between matches Some(r) && r[0].bits
            == lo && r[0].shown@ == lo_shown && r[1].bits == hi && r[1].shown@ == hi_shown,
        RuleModel::IsIn(allowed) => s.is_in matches Some(v) && texts(v@) == allowed,
        RuleModel::Contains(part) => s.contains matches Some(t) && t@ == part,
        RuleModel::StartsWith(part) => s.starts_with matches Some(t) && t@ == part,
        RuleModel::EndsWith(part) => s.ends_with matches Some(t) && t@ == part,
        RuleModel::MinLength(k) => s.min_length == Some(k),
        RuleModel::MaxLength(k) => s.max_length == Some(k),
        RuleModel::LengthBetween(lo, hi) => s.length_between matches Some(r) && r[0] == lo && r[1]
            == hi,
        RuleModel::MatchRegex(pattern) => s.matches_regex matches Some(t) && t@ == pattern,
        RuleModel::DateFormat(format) => s.date_format matches Some(f) && f@ == format,
        RuleModel::AfterDate(reference, format) => {
            &&& s.after matches Some(a) && a@ == reference
            &&& s.date_format matches Some(f) && f@ == format
        },
        RuleModel::BeforeDate(reference, format) => {
            &&& s.before matches Some(b) && b@ == reference
            &&& s.date_format matches Some(f) && f@ == format
        },
        RuleModel::BetweenDates(from, to, format) => {
            &&& s.between_dates matches Some(d) && d[0]@ == from && d[1]@ == to
            &&& s.date_format matches Some(f) && f@ == format
        },
    }
}

proof fn lemma_concat_contains()
    ensures
        forall|a: Seq<RuleModel>, b: Seq<RuleModel>, x: RuleModel| #[trigger]
            (a + b).contains(x) <==> a.contains(x) || b.contains(x),
        forall|p: bool, r: RuleModel, x: RuleModel| #[trigger]
            crate::validator::when(p, r).contains(x) <==> p && x == r,
{
    assert forall|a: Seq<RuleModel>, b: Seq<RuleModel>, x: RuleModel| #[trigger]
        (a + b).contains(x) <==> a.contains(x) || b.contains(x) by {
        if a.contains(x) {
            let i = choose|i: int| 0 <= i < a.len() && a[i] == x;
            assert((a + b)[i] == x);
        }
        if b.contains(x) {
            let i = choose|i: int| 0 <= i < b.len() && b[i] == x;
            assert((a + b)[a.len() + i] == x);
        }
        if (a + b).contains(x) {
            let i = choose|i: int| 0 <= i < (a + b).len() && (a + b)[i] == x;
            if i < a.len() {
                assert(a[i] == x);
            } else {
                assert(b[i - a.len()] == x);
            }
        }
    }
    assert forall|p: bool, r: RuleModel, x: RuleModel| #[trigger]
        crate::validator::when(p, r).contains(x) <==> p && x == r by {
        if p {
            assert(crate::validator::when(p, r)[0] == r);
        }
    }
}

spec fn flag_kind(r: RuleModel) -> bool {
    r is NotNull || r is NotEmpty || r is IsPositive || r is IsNegative || r is IsFinite
}

spec fn bound_kind(r: RuleModel) -> bool {
    r is GreaterThan || r is GreaterEqualThan || r is LessEqualThan || r is LessThan || r is Equal
        || r is Between
}

spec fn content_kind(r: RuleModel) -> bool {
    r is IsIn || r is Contains || r is StartsWith || r is EndsWith
}

spec fn form_kind(r: RuleModel) -> bool {
    r is MinLength || r is MaxLength || r is LengthBetween || r is MatchRegex
}

spec fn date_kind(r: RuleModel) -> bool {
    r is DateFormat || r is AfterDate || r is BeforeDate || r is BetweenDates
}

proof fn lemma_flag_group(s: ColumnSchema, r: RuleModel)
    ensures
        crate::validator::flag_rules(s).contains(r) <==> flag_kind(r) && asked_for(s, r),
{
    lemma_concat_contains();
}

proof fn lemma_bound_group(s: ColumnSchema, r: RuleModel)
    ensures
        crate::validator::bound_rules(s).contains(r) <==> bound_kind(r) && asked_for(s, r),
{
    lemma_concat_contains();
}

proof fn lemma_content_group(s: ColumnSchema, r: RuleModel)
    ensures
        crate::validator::content_rules(s).contains(r) <==> content_kind(r) && asked_for(s, r),
{
    lemma_concat_contains();
}

proof fn lemma_form_group(s: ColumnSchema, r: RuleModel)
    ensures
        crate::validator::form_rules(s).contains(r) <==> form_kind(r) && asked_for(s, r),
{
    lemma_concat_contains();
}

proof fn lemma_date_group(s: ColumnSchema, r: RuleModel)
    ensures
        crate::validator::date_rules(s).contains(r) <==> date_kind(r) && asked_for(s, r),
{
    lemma_concat_contains();
}

/// The rules built for a column's schema are exactly the rules that its
/// set fields ask for, each with the field's own value: a field that is set
/// always gets its rule, and no rule comes from a field that is not set.
pub proof fn lemma_schema_rules_are_the_asked_rules(s: ColumnSchema, r: RuleModel)
    ensures
        schema_rules(s).contains(r) <==> asked_for(s, r),
{
    lemma_concat_contains();
    lemma_flag_group(s, r);
    lemma_bound_group(s, r);
    lemma_content_group(s, r);
    lemma_form_group(s, r);
    lemma_date_group(s, r);
    let f = crate::validator::flag_rules(s);
    let b = crate::validator::bound_rules(s);
    let c = crate::validator::content_rules(s);
    let m = crate::validator::form_rules(s);
    let d = crate::validator::date_rules(s);
    assert(crate::validator::text_rules(s) == c + m);
    assert(schema_rules(s) == f + b + (c + m) + d);
    assert(flag_kind(r) || bound_kind(r) || content_kind(r) || form_kind(r) || date_kind(r));
}

/// Looking a column up by name finds the first column of the data with
/// exactly that name, and finds none when no column has that name.
pub proof fn lemma_lookup_finds_the_named_column(data: Seq<ColumnData>, name: Seq<char>)
    ensures
        lookup(data, name) is None <==> forall|i: int|
            0 <= i < data.len() ==> (#[trigger] data[i]).name@ != name,
        lookup(data, name) matches Some(c) ==> c.name@ == name && exists|i: int|
            0 <= i < data.len() && #[trigger] data[i] == c && forall|j: int|
                0 <= j < i ==> (#[trigger] data[j]).name@ != name,
    decreases data.len(),
{
    if data.len() > 0 {
        let rest = data.drop_first();
        lemma_lookup_finds_the_named_column(rest, name);
        assert forall|i: int| 0 <= i < rest.len() implies rest[i] == data[i + 1] by {}
        if data[0].name@ == name {
            assert(data[0] == lookup(data, name).unwrap());
        } else {
            if lookup(rest, name) is None {
                assert forall|i: int| 0 <= i < data.len() implies (#[trigger] data[i]).name@
                    != name by {
                    if i > 0 {
                        assert(rest[i - 1] == data[i]);
                    }
                }
            } else {
                let c = lookup(rest, name).unwrap();
                let k = choose|k: int|
                    0 <= k < rest.len() && #[trigger] rest[k] == c && forall|j: int|
                        0 <= j < k ==> (#[trigger] rest[j]).name@ != name;
                assert(data[k + 1] == c);
                assert forall|j: int| 0 <= j < k + 1 implies (#[trigger] data[j]).name@ != name by {
                    if j > 0 {
                        assert(rest[j - 1] == data[j]);
                    }
                }
                assert(rest[k].name@ == name);
            }
        }
    }
}

/// `StartsWith`, `EndsWith` and `Contains` accept a value exactly when the
/// text stands at the value's start, at its end, or somewhere in it.
pub proof fn lemma_text_rules_find_the_part(value: Seq<char>, reading: Option<u64>, part: Seq<char>)
    ensures
        !RuleModel::StartsWith(part).rejects(value, reading) <==> part.len() <= value.len()
            && value.subrange(0, part.len() as int) == part,
        !RuleModel::EndsWith(part).rejects(value, reading) <==> part.len() <= value.len()
            && value.subrange(value.len() - part.len(), value.len() as int) == part,
        !RuleModel::Contains(part).rejects(value, reading) <==> exists|k: int|
            0 <= k && k + part.len() <= value.len() && #[trigger] value.subrange(k, k + part.len())
                == part,
{
    if !RuleModel::Contains(part).rejects(value, reading) {
        let k = choose|k: int| occurs_at(value, part, k);
        assert(value.subrange(k, k + part.len()) == part);
    }
    if exists|k: int|
        0 <= k && k + part.len() <= value.len() && #[trigger] value.subrange(k, k + part.len())
            == part {
        let k = choose|k: int|
            0 <= k && k + part.len() <= value.len() && #[trigger] value.subrange(k, k + part.len())
                == part;
        assert(occurs_at(value, part, k));
    }
}

/// On a text of ASCII characters, where each character is one byte, the
/// length rules compare the number of characters with their bounds.
pub proof fn lemma_length_rules_count_ascii_characters(
    value: Seq<char>,
    reading: Option<u64>,
    k: usize,
    lo: usize,
    hi: usize,
)
    requires
        forall|i: int| 0 <= i < value.len() ==> (#[trigger] value[i] as u32) < 0x80,
    ensures
        !RuleModel::MinLength(k).rejects(value, reading) <==> value.len() >= k,
        !RuleModel::MaxLength(k).rejects(value, reading) <==> value.len() <= k,
        !RuleModel::LengthBetween(lo, hi).rejects(value, reading) <==> lo <= value.len() <= hi,
{
    lemma_byte_length_bounds(value);
}

/// The date comparisons accept a value exactly when the value and the
/// reference dates all read as days in the format, and the value's day is
/// strictly after the reference, strictly before it, or between the two
/// references with both ends included.
pub proof fn lemma_date_comparisons_compare_days(
    value: Seq<char>,
    reading: Option<u64>,
    a: Seq<char>,
    b: Seq<char>,
    format: Seq<char>,
)
    ensures
        !RuleModel::AfterDate(a, format).rejects(value, reading) <==> (parsed_day(a, format) is Some
            && parsed_day(value, format) is Some && parsed_day(value, format).unwrap() > parsed_day(
            a,
            format,
        ).unwrap()),
        !RuleModel::BeforeDate(a, format).rejects(value, reading) <==> (parsed_day(a, format) is Some
            && parsed_day(value, format) is Some && parsed_day(value, format).unwrap() < parsed_day(
            a,
            format,
        ).unwrap()),
        !RuleModel::BetweenDates(a, b, format).rejects(value, reading) <==> (parsed_day(a, format) is Some
            && parsed_day(b, format) is Some && parsed_day(value, format) is Some && parsed_day(
            a,
            format,
        ).unwrap() <= parsed_day(value, format).unwrap() <= parsed_day(b, format).unwrap()),
{
}

/// A rule's failed values are the texts of the cells that it turns down:
/// all of them, each once, in the order of the column.
pub proof fn lemma_failed_values_are_the_rejected_cells(rule: RuleModel, cells: Seq<Cell>)
    ensures
        failed_texts(rule, cells) == cells.filter(|c: Cell| rule.rejects(c.text@, c.reading)).map_values(
            |c: Cell| c.text@,
        ),
    decreases cells.len(),
{
    reveal(Seq::filter);
    if cells.len() > 0 {
        lemma_failed_values_are_the_rejected_cells(rule, cells.drop_last());
        let sub = cells.drop_last().filter(|c: Cell| rule.rejects(c.text@, c.reading));
        assert(sub.push(cells.last()).map_values(|c: Cell| c.text@) =~= sub.map_values(
            |c: Cell| c.text@,
        ).push(cells.last().text@));
    }
}

/// The count of passed results in a report counts the results that pass,
/// and it is the number of results exactly when every result passes.
pub proof fn lemma_passed_count_counts_passes(results: Seq<ResultModel>)
    ensures
        crate::validator::passed_count(results) == results.filter(|r: ResultModel| r.pass).len(),
        crate::validator::passed_count(results) <= results.len(),
        crate::validator::passed_count(results) == results.len() <==> all_pass(results),
    decreases results.len(),
{
    reveal(Seq::filter);
    if results.len() > 0 {
        let rest = results.drop_last();
        lemma_passed_count_counts_passes(rest);
        assert forall|i: int| 0 <= i < rest.len() implies rest[i] == results[i] by {}
        if all_pass(results) {
            assert(results[results.len() - 1].pass);
            assert(all_pass(rest));
        }
        if crate::validator::passed_count(results) == results.len() {
            assert(results.last().pass);
            assert forall|i: int| 0 <= i < results.len() implies (#[trigger] results[i]).pass by {
                if i < rest.len() {
                    assert(rest[i] == results[i]);
                }
            }
        }
    }
}

/// The number that a text of decimal digits, most significant first, stands for.
pub open spec fn digits_value(s: Seq<char>) -> int
    decreases s.len(),
{
    if s.len() == 0 {
        0
    } else {
        digits_value(s.drop_last()) * 10 + (s.last() as int - '0' as int)
    }
}

/// The decimal text of a number, as reports show counts and lengths, is a
/// nonempty run of digits without a leading zero that stands for the number.
pub proof fn lemma_decimal_reads_back(n: nat)
    ensures
        crate::text::decimal(n).len() >= 1,
        forall|i: int|
            0 <= i < crate::text::decimal(n).len() ==> '0' <= #[trigger] crate::text::decimal(n)[i]
                <= '9',
        crate::text::decimal(n)[0] == '0' ==> n == 0,
        digits_value(crate::text::decimal(n)) == n,
    decreases n,
{
    let d = crate::text::decimal(n);
    if n < 10 {
        assert(crate::text::digit_char(n) as int == '0' as int + n);
        assert(d.drop_last().len() == 0);
        assert(digits_value(d.drop_last()) == 0);
        assert(d.last() == crate::text::digit_char(n));
    } else {
        let q = n / 10;
        let r = n % 10;
        lemma_decimal_reads_back(q);
        let e = crate::text::decimal(q);
        assert(crate::text::digit_char(r) as int == '0' as int + r);
        assert(d.drop_last() =~= e);
        assert(d[0] == e[0]);
        assert forall|i: int| 0 <= i < d.len() implies '0' <= #[trigger] d[i] <= '9' by {
            if i < e.len() {
                assert(d[i] == e[i]);
            }
        }
        assert(d.last() == crate::text::digit_char(r));
        assert(digits_value(d) == digits_value(e) * 10 + r);
        assert(q * 10 + r == n);
    }
}

/// A pattern whose exponent bits are all set and whose fraction is not zero
/// is a NaN: no comparison rule and no sign rule accepts it, whatever the
/// bounds, while `NotNull` and the text rules do not look at the number.
pub proof fn lemma_nans_fail_every_comparison(
    value: Seq<char>,
    n: u64,
    t: u64,
    u: u64,
    shown: Seq<char>,
)
    requires
        (n & 0x7ff0_0000_0000_0000u64) == 0x7ff0_0000_0000_0000u64,
        (n & 0xf_ffff_ffff_ffffu64) != 0,
    ensures
        is_nan(n),
        RuleModel::GreaterThan(t, shown).rejects(value, Some(n)),
        RuleModel::GreaterEqualThan(t, shown).rejects(value, Some(n)),
        RuleModel::LessEqualThan(t, shown).rejects(value, Some(n)),
        RuleModel::LessThan(t, shown).rejects(value, Some(n)),
        RuleModel::Equal(t, shown).rejects(value, Some(n)),
        RuleModel::Equal(n, shown).rejects(value, Some(n)),
        RuleModel::Between(t, shown, u, shown).rejects(value, Some(n)),
        RuleModel::IsPositive.rejects(value, Some(n)),
        RuleModel::IsNegative.rejects(value, Some(n)),
        RuleModel::IsFinite.rejects(value, Some(n)),
        RuleModel::NotNull.rejects(value, Some(n)) == RuleModel::NotNull.rejects(value, None),
{
    assert((n & 0x7ff0_0000_0000_0000u64) == 0x7ff0_0000_0000_0000u64 ==> ((n >> 52u64) & 0x7ffu64)
        == 0x7ffu64) by (bit_vector);
}

/// The results for one column hold one result per rule, in the order of
/// the rules: each names the column and the rule, lists the values that
/// the rule turns down, and passes exactly when that list is empty.
pub proof fn lemma_one_result_per_rule(column: Seq<char>, rules: Seq<RuleModel>, cells: Seq<Cell>)
    ensures
        column_results(column, rules, cells).len() == rules.len(),
        forall|i: int|
            0 <= i < rules.len() ==> {
                let r = #[trigger] column_results(column, rules, cells)[i];
                &&& r.column_name == column
                &&& r.rule_name == rules[i].label()
                &&& r.failed_values == failed_texts(rules[i], cells)
                &&& r.pass == (failed_texts(rules[i], cells).len() == 0)
            },
{
}

/// Columns of the schema that the data lacks are skipped: when the data has
/// none of them, the report holds no result and passes.
pub proof fn lemma_missing_columns_are_skipped(columns: Seq<(String, ColumnSchema)>, data: Seq<ColumnData>)
    requires
        forall|c: int| 0 <= c < columns.len() ==> lookup(data, (#[trigger] columns[c]).0@) is None,
    ensures
        report_results(columns, data).len() == 0,
        all_pass(report_results(columns, data)),
    decreases columns.len(),
{
    if columns.len() > 0 {
        let rest = columns.drop_last();
        assert forall|c: int| 0 <= c < rest.len() implies lookup(data, (#[trigger] rest[c]).0@) is None by {
            assert(rest[c] == columns[c]);
        }
        lemma_missing_columns_are_skipped(rest, data);
        assert(lookup(data, columns[columns.len() - 1].0@) is None);
    }
}

/// The length rules count bytes of UTF-8: each character takes one to four
/// bytes, and the byte length equals the number of characters exactly when
/// every character is ASCII.
pub proof fn lemma_byte_length_bounds(value: Seq<char>)
    ensures
        value.len() <= crate::rules::byte_len(value) <= 4 * value.len(),
        crate::rules::byte_len(value) == value.len() <==> forall|i: int|
            0 <= i < value.len() ==> (#[trigger] value[i] as u32) < 0x80,
    decreases value.len(),
{
    if value.len() > 0 {
        let rest = value.drop_first();
        lemma_byte_length_bounds(rest);
        let first = vstd::utf8::encode_scalar(value[0] as u32);
        assert(1 <= first.len() <= 4);
        assert(first.len() == 1 <==> (value[0] as u32) < 0x80);
        assert(vstd::utf8::encode_utf8(value) == first + vstd::utf8::encode_utf8(rest));
        assert forall|i: int| 0 <= i < rest.len() implies rest[i] == value[i + 1] by {}
        if forall|i: int| 0 <= i < value.len() ==> (#[trigger] value[i] as u32) < 0x80 {
            assert forall|i: int| 0 <= i < rest.len() implies (#[trigger] rest[i] as u32) < 0x80 by {
                assert(rest[i] == value[i + 1]);
            }
            assert((value[0] as u32) < 0x80);
        }
        if crate::rules::byte_len(value) == value.len() {
            assert forall|i: int| 0 <= i < value.len() implies (#[trigger] value[i] as u32) < 0x80 by {
                if i > 0 {
                    assert(rest[i - 1] == value[i]);
                }
            }
        }
    }
}

/// Joining texts with a separator puts the separator between neighbours
/// only: no text gives nothing, one text gives itself, and joining two
/// nonempty lists one after the other is joining each, with one separator
/// between them.
pub proof fn lemma_joined_puts_separators_between(
    a: Seq<Seq<char>>,
    b: Seq<Seq<char>>,
    x: Seq<char>,
    sep: Seq<char>,
)
    ensures
        crate::text::joined(Seq::empty(), sep) == Seq::<char>::empty(),
        crate::text::joined(seq![x], sep) == x,
        a.len() > 0 && b.len() > 0 ==> crate::text::joined(a + b, sep) == crate::text::joined(a, sep)
            + sep + crate::text::joined(b, sep),
    decreases b.len(),
{
    if a.len() > 0 && b.len() > 0 {
        let ab = a + b;
        assert(ab.last() == b.last());
        if b.len() == 1 {
            assert(ab.drop_last() =~= a);
            assert(crate::text::joined(b, sep) == b[0]);
        } else {
            lemma_joined_puts_separators_between(a, b.drop_last(), x, sep);
            assert(ab.drop_last() =~= a + b.drop_last());
            assert(crate::text::joined(ab, sep) =~= crate::text::joined(a, sep) + sep
                + crate::text::joined(b, sep));
        }
    }
}

} // verus!
