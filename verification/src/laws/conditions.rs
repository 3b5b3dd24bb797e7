//! What the conditions of a filter mean for the text of a cell.

use crate::text::{
    lemma_text_less_asymmetric, lemma_text_less_total, lemma_text_order_equal, lowercase, occurs_at,
    occurs_in, text_less, whitespace,
};
use crate::types::{
    condition_holds, law_op_names_distinct, op_name, value_place, ComparisonOp, FieldType,
    ScalarView,
};
use vstd::prelude::*;

verus! {

/// `StartsWith` holds of a cell whose text, in small letters, is the value and then
/// something or nothing, and of no other: so its first characters are those of the value.
pub proof fn law_starts_with(
    actual: ScalarView,
    value: ScalarView,
    value_to: Option<ScalarView>,
    members: Seq<ScalarView>,
    ft: Option<FieldType>,
)
    ensures
        ({
            let a = lowercase(actual.text);
            let v = lowercase(value.text);
            let holds = condition_holds(
                actual,
                ComparisonOp::StartsWith,
                value,
                value_to,
                members,
                ft,
            );
            &&& holds <==> exists|rest: Seq<char>| a == #[trigger] (v + rest)
            &&& holds <==> v.len() <= a.len() && forall|i: int|
                0 <= i < v.len() ==> a[i] == #[trigger] v[i]
        }),
{
    let a = lowercase(actual.text);
    let v = lowercase(value.text);
    let holds = condition_holds(actual, ComparisonOp::StartsWith, value, value_to, members, ft);
    if holds {
        assert(a =~= v + a.skip(v.len() as int));
    }
    if exists|rest: Seq<char>| a == #[trigger] (v + rest) {
        let rest = choose|rest: Seq<char>| a == #[trigger] (v + rest);
        assert(a.take(v.len() as int) =~= v);
    }
    if v.len() <= a.len() && forall|i: int| 0 <= i < v.len() ==> a[i] == #[trigger] v[i] {
        assert(a.take(v.len() as int) =~= v);
        assert(a =~= v + a.skip(v.len() as int));
    }
}

/// `EndsWith` holds of a cell whose text, in small letters, is something or nothing and
/// then the value, and of no other: so its last characters are those of the value.
pub proof fn law_ends_with(
    actual: ScalarView,
    value: ScalarView,
    value_to: Option<ScalarView>,
    members: Seq<ScalarView>,
    ft: Option<FieldType>,
)
    ensures
        ({
            let a = lowercase(actual.text);
            let v = lowercase(value.text);
            let holds = condition_holds(
                actual,
                ComparisonOp::EndsWith,
                value,
                value_to,
                members,
                ft,
            );
            &&& holds <==> exists|front: Seq<char>| a == #[trigger] (front + v)
            &&& holds <==> v.len() <= a.len() && forall|i: int|
                0 <= i < v.len() ==> a[a.len() - v.len() + i] == #[trigger] v[i]
        }),
{
    let a = lowercase(actual.text);
    let v = lowercase(value.text);
    let holds = condition_holds(actual, ComparisonOp::EndsWith, value, value_to, members, ft);
    let n = a.len() - v.len();
    if holds {
        assert(a =~= a.take(n) + v);
    }
    if exists|front: Seq<char>| a == #[trigger] (front + v) {
        let front = choose|front: Seq<char>| a == #[trigger] (front + v);
        assert(a.skip(n) =~= v);
        assert(a.subrange(n, a.len() as int) =~= v);
    }
    if v.len() <= a.len() && forall|i: int| 0 <= i < v.len() ==> a[n + i] == #[trigger] v[i] {
        assert(a.skip(n) =~= v);
        assert(a.subrange(n, a.len() as int) =~= v);
        assert(a =~= a.take(n) + v);
    }
}

/// `Contains` holds of a cell whose text, in small letters, has the value somewhere, with
/// anything before and behind it, and of no other.
pub proof fn law_contains(
    actual: ScalarView,
    value: ScalarView,
    value_to: Option<ScalarView>,
    members: Seq<ScalarView>,
    ft: Option<FieldType>,
)
    ensures
        condition_holds(actual, ComparisonOp::Contains, value, value_to, members, ft)
            <==> exists|front: Seq<char>, rest: Seq<char>|
            lowercase(actual.text) == #[trigger] (front + lowercase(value.text) + rest),
{
    let a = lowercase(actual.text);
    let v = lowercase(value.text);
    if occurs_in(a, v) {
        let at = choose|at: int| occurs_at(a, v, at);
        assert(a =~= a.take(at) + v + a.skip(at + v.len()));
    }
    if exists|front: Seq<char>, rest: Seq<char>| a == #[trigger] (front + v + rest) {
        let (front, rest) = choose|front: Seq<char>, rest: Seq<char>|
            a == #[trigger] (front + v + rest);
        let at = front.len() as int;
        assert(a.subrange(at, at + v.len()) =~= v);
        assert(occurs_at(a, v, at));
    }
}

/// `IsNull` holds of a cell in which every character is white space, an empty one among
/// them, and of no other; `IsNotNull` of all others.
pub proof fn law_null(
    actual: ScalarView,
    value: ScalarView,
    value_to: Option<ScalarView>,
    members: Seq<ScalarView>,
    ft: Option<FieldType>,
)
    ensures
        condition_holds(actual, ComparisonOp::IsNull, value, value_to, members, ft)
            <==> forall|c: char| actual.text.contains(c) ==> whitespace(c),
        condition_holds(actual, ComparisonOp::IsNotNull, value, value_to, members, ft)
            <==> exists|c: char| actual.text.contains(c) && !whitespace(c),
{
    let s = actual.text;
    if forall|c: char| s.contains(c) ==> whitespace(c) {
        assert forall|i: int| 0 <= i < s.len() implies whitespace(#[trigger] s[i]) by {
            assert(s.contains(s[i]));
        }
    }
}

/// The six comparisons belong together: `Gte` is `Gt` or `Eq`, `Lte` is `Lt` or `Eq`, at
/// most one of `Lt`, `Eq` and `Gt` holds, `Ne` is the opposite of `Eq`, and what is less
/// one way round is greater the other way round. `Between` is `Gte` and `Lte`, and holds
/// of nothing without an upper value; `In` is `Eq` of one of the members.
pub proof fn law_comparisons(
    actual: ScalarView,
    value: ScalarView,
    value_to: Option<ScalarView>,
    members: Seq<ScalarView>,
    ft: Option<FieldType>,
)
    ensures
        ({
            let holds = |op: ComparisonOp|
                condition_holds(actual, op, value, value_to, members, ft);
            &&& holds(ComparisonOp::Gte) == (holds(ComparisonOp::Gt) || holds(ComparisonOp::Eq))
            &&& holds(ComparisonOp::Lte) == (holds(ComparisonOp::Lt) || holds(ComparisonOp::Eq))
            &&& !(holds(ComparisonOp::Lt) && holds(ComparisonOp::Gt))
            &&& !(holds(ComparisonOp::Lt) && holds(ComparisonOp::Eq))
            &&& !(holds(ComparisonOp::Gt) && holds(ComparisonOp::Eq))
            &&& holds(ComparisonOp::Ne) == !holds(ComparisonOp::Eq)
            &&& holds(ComparisonOp::Lt) == condition_holds(
                value,
                ComparisonOp::Gt,
                actual,
                value_to,
                members,
                ft,
            )
            &&& holds(ComparisonOp::Eq) == condition_holds(
                value,
                ComparisonOp::Eq,
                actual,
                value_to,
                members,
                ft,
            )
            &&& holds(ComparisonOp::Between) <==> holds(ComparisonOp::Gte) && (value_to matches Some(
                upper,
            ) && condition_holds(actual, ComparisonOp::Lte, upper, None, Seq::empty(), ft))
            &&& holds(ComparisonOp::In) <==> exists|i: int|
                0 <= i < members.len() && condition_holds(
                    actual,
                    ComparisonOp::Eq,
                    #[trigger] members[i],
                    None,
                    Seq::empty(),
                    ft,
                )
            &&& holds(ComparisonOp::NotIn) == !holds(ComparisonOp::In)
        }),
{
    crate::types::law_comparison_antisymmetric(actual, value, ft);
    if condition_holds(actual, ComparisonOp::In, value, value_to, members, ft) {
        let i = choose|i: int|
            0 <= i < members.len() && crate::types::is_equal(actual, #[trigger] members[i], ft);
        assert(condition_holds(actual, ComparisonOp::Eq, members[i], None, Seq::empty(), ft));
    }
}

/// Two texts that read neither as numbers nor as dates are compared as texts: equal where
/// they are the same, letter for letter, and less or greater in the order of texts. A
/// declared number or date has no order of texts: there nothing but `Ne` holds.
pub proof fn law_texts_compared(
    actual: ScalarView,
    value: ScalarView,
    value_to: Option<ScalarView>,
    members: Seq<ScalarView>,
    ft: Option<FieldType>,
)
    requires
        actual.number is None || value.number is None,
        !actual.date || !value.date,
    ensures
        ({
            let holds = |op: ComparisonOp|
                condition_holds(actual, op, value, value_to, members, ft);
            if ft is None || ft == Some(FieldType::String) {
                &&& holds(ComparisonOp::Eq) <==> actual.text == value.text
                &&& holds(ComparisonOp::Lt) <==> text_less(actual.text, value.text)
                &&& holds(ComparisonOp::Gt) <==> text_less(value.text, actual.text)
            } else {
                &&& !holds(ComparisonOp::Eq) && !holds(ComparisonOp::Lt) && !holds(ComparisonOp::Gt)
                &&& !holds(ComparisonOp::Gte) && !holds(ComparisonOp::Lte)
                &&& holds(ComparisonOp::Ne)
            }
        }),
{
    lemma_text_order_equal(actual.text, value.text);
    lemma_text_less_asymmetric(actual.text, value.text);
    lemma_text_less_total(actual.text, value.text);
}

/// Two dates are compared as texts, unless both read as numbers and no type, or none but
/// that of a text, is declared; a declared number is not compared as a date.
pub proof fn law_dates_compared(
    actual: ScalarView,
    value: ScalarView,
    value_to: Option<ScalarView>,
    members: Seq<ScalarView>,
    ft: Option<FieldType>,
)
    requires
        actual.date,
        value.date,
        ft == Some(FieldType::Date) || actual.number is None || value.number is None,
    ensures
        ({
            let holds = |op: ComparisonOp|
                condition_holds(actual, op, value, value_to, members, ft);
            if ft == Some(FieldType::Int) || ft == Some(FieldType::Float) {
                !holds(ComparisonOp::Eq) && !holds(ComparisonOp::Lt) && !holds(ComparisonOp::Gt)
            } else {
                &&& holds(ComparisonOp::Eq) <==> actual.text == value.text
                &&& holds(ComparisonOp::Lt) <==> text_less(actual.text, value.text)
                &&& holds(ComparisonOp::Gt) <==> text_less(value.text, actual.text)
            }
        }),
{
    lemma_text_order_equal(actual.text, value.text);
    lemma_text_less_asymmetric(actual.text, value.text);
    lemma_text_less_total(actual.text, value.text);
}

/// Two values that read as numbers are compared as numbers, whatever their texts are,
/// unless dates are declared. By the bits of a double: of two without a sign the one with
/// the greater bits is greater, of two with a sign the one with the smaller bits; one
/// with a sign is less than one without, but that the two zeros are equal; and what is not
/// a number compares with nothing.
pub proof fn law_numbers_compared(
    actual: ScalarView,
    value: ScalarView,
    value_to: Option<ScalarView>,
    members: Seq<ScalarView>,
    ft: Option<FieldType>,
    a: u64,
    b: u64,
)
    requires
        actual.number == Some(a),
        value.number == Some(b),
        ft == Some(FieldType::Int) || ft == Some(FieldType::Float) || a % 0x8000_0000_0000_0000
            <= 0x7ff0_0000_0000_0000 && b % 0x8000_0000_0000_0000 <= 0x7ff0_0000_0000_0000,
        ft != Some(FieldType::Date),
    ensures
        ({
            let holds = |op: ComparisonOp|
                condition_holds(actual, op, value, value_to, members, ft);
            let sign = 0x8000_0000_0000_0000u64;
            if a % sign > 0x7ff0_0000_0000_0000 || b % sign > 0x7ff0_0000_0000_0000 {
                !holds(ComparisonOp::Eq) && !holds(ComparisonOp::Lt) && !holds(ComparisonOp::Gt)
            } else if a < sign && b < sign {
                &&& holds(ComparisonOp::Eq) <==> a == b
                &&& holds(ComparisonOp::Lt) <==> a < b
                &&& holds(ComparisonOp::Gt) <==> a > b
            } else if a >= sign && b >= sign {
                &&& holds(ComparisonOp::Eq) <==> a == b
                &&& holds(ComparisonOp::Lt) <==> a > b
                &&& holds(ComparisonOp::Gt) <==> a < b
            } else if a >= sign {
                &&& holds(ComparisonOp::Eq) <==> a == sign && b == 0
                &&& holds(ComparisonOp::Lt) <==> a != sign || b != 0
                &&& !holds(ComparisonOp::Gt)
            } else {
                &&& holds(ComparisonOp::Eq) <==> a == 0 && b == sign
                &&& holds(ComparisonOp::Gt) <==> a != 0 || b != sign
                &&& !holds(ComparisonOp::Lt)
            }
        }),
{
}

/// Where declared types differ, the same values may compare in another way: a text and a
/// number are not equal under a declared number, and without a declared type they are
/// compared by their letters.
pub proof fn law_declared_number(actual: ScalarView, value: ScalarView, ft: FieldType)
    requires
        ft == FieldType::Int || ft == FieldType::Float,
        actual.number is None || value.number is None,
    ensures
        value_place(actual, value, Some(ft)) is None,
{
}

/// Each operator is known by its own name.
pub proof fn law_operators_are_named(op: ComparisonOp)
    ensures
        op_name(op) == "Eq"@ <==> op == ComparisonOp::Eq,
        op_name(op) == "Ne"@ <==> op == ComparisonOp::Ne,
        op_name(op) == "Gt"@ <==> op == ComparisonOp::Gt,
        op_name(op) == "Gte"@ <==> op == ComparisonOp::Gte,
        op_name(op) == "Lt"@ <==> op == ComparisonOp::Lt,
        op_name(op) == "Lte"@ <==> op == ComparisonOp::Lte,
        op_name(op) == "In"@ <==> op == ComparisonOp::In,
        op_name(op) == "NotIn"@ <==> op == ComparisonOp::NotIn,
        op_name(op) == "Between"@ <==> op == ComparisonOp::Between,
        op_name(op) == "IsNull"@ <==> op == ComparisonOp::IsNull,
        op_name(op) == "IsNotNull"@ <==> op == ComparisonOp::IsNotNull,
        op_name(op) == "Contains"@ <==> op == ComparisonOp::Contains,
        op_name(op) == "StartsWith"@ <==> op == ComparisonOp::StartsWith,
        op_name(op) == "EndsWith"@ <==> op == ComparisonOp::EndsWith,
{
    if op_name(op) == op_name(ComparisonOp::Eq) {
        law_op_names_distinct(op, ComparisonOp::Eq);
    }
    if op_name(op) == op_name(ComparisonOp::Ne) {
        law_op_names_distinct(op, ComparisonOp::Ne);
    }
    if op_name(op) == op_name(ComparisonOp::Gt) {
        law_op_names_distinct(op, ComparisonOp::Gt);
    }
    if op_name(op) == op_name(ComparisonOp::Gte) {
        law_op_names_distinct(op, ComparisonOp::Gte);
    }
    if op_name(op) == op_name(ComparisonOp::Lt) {
        law_op_names_distinct(op, ComparisonOp::Lt);
    }
    if op_name(op) == op_name(ComparisonOp::Lte) {
        law_op_names_distinct(op, ComparisonOp::Lte);
    }
    if op_name(op) == op_name(ComparisonOp::In) {
        law_op_names_distinct(op, ComparisonOp::In);
    }
    if op_name(op) == op_name(ComparisonOp::NotIn) {
        law_op_names_distinct(op, ComparisonOp::NotIn);
    }
    if op_name(op) == op_name(ComparisonOp::Between) {
        law_op_names_distinct(op, ComparisonOp::Between);
    }
    if op_name(op) == op_name(ComparisonOp::IsNull) {
        law_op_names_distinct(op, ComparisonOp::IsNull);
    }
    if op_name(op) == op_name(ComparisonOp::IsNotNull) {
        law_op_names_distinct(op, ComparisonOp::IsNotNull);
    }
    if op_name(op) == op_name(ComparisonOp::Contains) {
        law_op_names_distinct(op, ComparisonOp::Contains);
    }
    if op_name(op) == op_name(ComparisonOp::StartsWith) {
        law_op_names_distinct(op, ComparisonOp::StartsWith);
    }
    if op_name(op) == op_name(ComparisonOp::EndsWith) {
        law_op_names_distinct(op, ComparisonOp::EndsWith);
    }
}

} // verus!
