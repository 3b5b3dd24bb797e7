//! Query vocabulary: operators, filters, and how a cell compares with a filter.

use crate::text::{
    blank, chars_of, clone_texts, compare_text, contains_text, ends_with_text, is_blank, lowercase,
    lemma_text_order_equal, occurs_in, same_text, split_spec,
    starts_with_text, text_order, texts, trim_chars, trim_spec, Place,
};
use std::cmp::Ordering;
use vstd::prelude::*;

verus! {

/// How a filter compares a cell with its value.
#[derive(Clone, Copy, Debug, PartialEq, Eq, Structural)]
pub enum ComparisonOp {
    Eq,
    Ne,
    Gt,
    Gte,
    Lt,
    Lte,
    In,
    Between,
    NotIn,
    IsNull,
    IsNotNull,
    Contains,
    StartsWith,
    EndsWith,
}

/// The name of an operator.
pub open spec fn op_name(op: ComparisonOp) -> Seq<char> {
    match op {
        ComparisonOp::Eq => "Eq"@,
        ComparisonOp::Ne => "Ne"@,
        ComparisonOp::Gt => "Gt"@,
        ComparisonOp::Gte => "Gte"@,
        ComparisonOp::Lt => "Lt"@,
        ComparisonOp::Lte => "Lte"@,
        ComparisonOp::In => "In"@,
        ComparisonOp::Between => "Between"@,
        ComparisonOp::NotIn => "NotIn"@,
        ComparisonOp::IsNull => "IsNull"@,
        ComparisonOp::IsNotNull => "IsNotNull"@,
        ComparisonOp::Contains => "Contains"@,
        ComparisonOp::StartsWith => "StartsWith"@,
        ComparisonOp::EndsWith => "EndsWith"@,
    }
}

proof fn reveal_op_names()
    ensures
        forall|a: ComparisonOp, b: ComparisonOp|
            #![trigger op_name(a), op_name(b)]
            op_name(a) == op_name(b) ==> a == b,
{
    reveal_strlit("Eq");
    reveal_strlit("Ne");
    reveal_strlit("Gt");
    reveal_strlit("Gte");
    reveal_strlit("Lt");
    reveal_strlit("Lte");
    reveal_strlit("In");
    reveal_strlit("Between");
    reveal_strlit("NotIn");
    reveal_strlit("IsNull");
    reveal_strlit("IsNotNull");
    reveal_strlit("Contains");
    reveal_strlit("StartsWith");
    reveal_strlit("EndsWith");
    assert forall|a: ComparisonOp, b: ComparisonOp|
        #![trigger op_name(a), op_name(b)]
        op_name(a) == op_name(b) implies a == b by {
        let x = op_name(a);
        let y = op_name(b);
        assert(x.len() == y.len());
        assert(x[0] == y[0] && x[1] == y[1]);
    }
}

impl ComparisonOp {
    /// The operator's name.
    pub fn as_str(&self) -> (r: &str)
        ensures
            r@ == op_name(*self),
    {
        match self {
            ComparisonOp::Eq => "Eq",
            ComparisonOp::Ne => "Ne",
            ComparisonOp::Gt => "Gt",
            ComparisonOp::Gte => "Gte",
            ComparisonOp::Lt => "Lt",
            ComparisonOp::Lte => "Lte",
            ComparisonOp::In => "In",
            ComparisonOp::Between => "Between",
            ComparisonOp::NotIn => "NotIn",
            ComparisonOp::IsNull => "IsNull",
            ComparisonOp::IsNotNull => "IsNotNull",
            ComparisonOp::Contains => "Contains",
            ComparisonOp::StartsWith => "StartsWith",
            ComparisonOp::EndsWith => "EndsWith",
        }
    }

    /// The operator of that name; `Eq` for a text that names none.
    pub fn from_str(s: &str) -> (r: Self)
        ensures
            forall|op: ComparisonOp| op_name(op) == s@ ==> r == op,
            (forall|op: ComparisonOp| #[trigger] op_name(op) != s@) ==> r == ComparisonOp::Eq,
    {
        proof {
            reveal_op_names();
        }
        if same_text(s, "Eq") {
            assert(op_name(ComparisonOp::Eq) == s@);
            ComparisonOp::Eq
        } else if same_text(s, "Ne") {
            assert(op_name(ComparisonOp::Ne) == s@);
            ComparisonOp::Ne
        } else if same_text(s, "Gt") {
            assert(op_name(ComparisonOp::Gt) == s@);
            ComparisonOp::Gt
        } else if same_text(s, "Gte") {
            assert(op_name(ComparisonOp::Gte) == s@);
            ComparisonOp::Gte
        } else if same_text(s, "Lt") {
            assert(op_name(ComparisonOp::Lt) == s@);
            ComparisonOp::Lt
        } else if same_text(s, "Lte") {
            assert(op_name(ComparisonOp::Lte) == s@);
            ComparisonOp::Lte
        } else if same_text(s, "In") {
            assert(op_name(ComparisonOp::In) == s@);
            ComparisonOp::In
        } else if same_text(s, "Between") {
            assert(op_name(ComparisonOp::Between) == s@);
            ComparisonOp::Between
        } else if same_text(s, "NotIn") {
            assert(op_name(ComparisonOp::NotIn) == s@);
            ComparisonOp::NotIn
        } else if same_text(s, "IsNull") {
            assert(op_name(ComparisonOp::IsNull) == s@);
            ComparisonOp::IsNull
        } else if same_text(s, "IsNotNull") {
            assert(op_name(ComparisonOp::IsNotNull) == s@);
            ComparisonOp::IsNotNull
        } else if same_text(s, "Contains") {
            assert(op_name(ComparisonOp::Contains) == s@);
            ComparisonOp::Contains
        } else if same_text(s, "StartsWith") {
            assert(op_name(ComparisonOp::StartsWith) == s@);
            ComparisonOp::StartsWith
        } else if same_text(s, "EndsWith") {
            assert(op_name(ComparisonOp::EndsWith) == s@);
            ComparisonOp::EndsWith
        } else {
            ComparisonOp::Eq
        }
    }
}

/// No two operators share a name, so `from_str` undoes `as_str`.
pub proof fn law_op_names_distinct(a: ComparisonOp, b: ComparisonOp)
    requires
        op_name(a) == op_name(b),
    ensures
        a == b,
{
    reveal_op_names();
}

/// How the filters of a query are combined.
#[derive(Clone, Copy, Debug, PartialEq, Eq, Structural)]
pub enum LogicalOp {
    And,
    Or,
}

impl LogicalOp {
    /// The operator's name.
    pub fn as_str(&self) -> (r: &str)
        ensures
            r@ == (match *self {
                LogicalOp::And => "And"@,
                LogicalOp::Or => "Or"@,
            }),
    {
        match self {
            LogicalOp::And => "And",
            LogicalOp::Or => "Or",
        }
    }
}

/// The direction of a sort.
#[derive(Clone, Copy, Debug, PartialEq, Eq, Structural)]
pub enum SortDirection {
    Asc,
    Desc,
}

impl SortDirection {
    /// The direction's name.
    pub fn as_str(&self) -> (r: &str)
        ensures
            r@ == (match *self {
                SortDirection::Asc => "Asc"@,
                SortDirection::Desc => "Desc"@,
            }),
    {
        match self {
            SortDirection::Asc => "Asc",
            SortDirection::Desc => "Desc",
        }
    }
}

/// The declared type of a field.
#[derive(Clone, Copy, Debug, PartialEq, Eq, Structural)]
pub enum FieldType {
    String,
    Int,
    Float,
    Date,
}

/// A value of a cell or of a filter: its text, and how the text reads.
///
/// `number` holds the bits of the IEEE 754 double that the text denotes, where
/// it denotes one; `date` tells whether the text has the form of a date.
#[derive(Debug)]
pub struct Scalar {
    pub text: String,
    pub number: Option<u64>,
    pub date: bool,
}

/// What a `Scalar` stands for.
#[verifier::ext_equal]
pub struct ScalarView {
    pub text: Seq<char>,
    pub number: Option<u64>,
    pub date: bool,
}

impl View for Scalar {
    type V = ScalarView;

    open spec fn view(&self) -> ScalarView {
        ScalarView { text: self.text@, number: self.number, date: self.date }
    }
}

impl Scalar {
    /// A text that reads neither as a number nor as a date.
    pub fn plain(text: String) -> (r: Scalar)
        ensures
            r@ == (ScalarView { text: text@, number: None, date: false }),
    {
        Scalar { text, number: None, date: false }
    }
}

impl Clone for Scalar {
    fn clone(&self) -> (r: Self)
        ensures
            r@ == self@,
    {
        Scalar { text: self.text.clone(), number: self.number, date: self.date }
    }
}

/// The views of a list of values.
pub open spec fn scalars(v: Seq<Scalar>) -> Seq<ScalarView> {
    v.map_values(|s: Scalar| s@)
}

/// The bits that a double has beside its sign.
pub open spec fn magnitude(bits: u64) -> int {
    bits as int % 0x8000_0000_0000_0000
}

/// Whether the bits are those of a double that is not a number.
pub open spec fn not_a_number(bits: u64) -> bool {
    magnitude(bits) > 0x7ff0_0000_0000_0000
}

/// An integer that orders doubles as their values are ordered: the magnitude
/// bits, negated below zero. Both zeros have the key 0.
pub open spec fn number_key(bits: u64) -> int {
    if bits < 0x8000_0000_0000_0000 {
        magnitude(bits)
    } else {
        -magnitude(bits)
    }
}

/// Where one integer stands relative to another.
pub open spec fn int_place(a: int, b: int) -> Place {
    if a < b {
        Place::Less
    } else if a > b {
        Place::Greater
    } else {
        Place::Equal
    }
}

/// How two doubles compare; nothing where one of them is not a number.
pub open spec fn double_place(a: u64, b: u64) -> Option<Place> {
    if not_a_number(a) || not_a_number(b) {
        None
    } else {
        Some(int_place(number_key(a), number_key(b)))
    }
}

/// How two values compare as numbers, where both read as numbers.
pub open spec fn numeric_place(left: ScalarView, right: ScalarView) -> Option<Place> {
    match (left.number, right.number) {
        (Some(a), Some(b)) => double_place(a, b),
        _ => None,
    }
}

/// How two values compare as dates, where both have the form of dates.
pub open spec fn date_place(left: ScalarView, right: ScalarView) -> Option<Place> {
    if left.date && right.date {
        Some(text_order(left.text, right.text))
    } else {
        None
    }
}

/// How two values compare: by the declared type, or else as numbers, as dates
/// and as texts, whichever applies first.
pub open spec fn value_place(
    left: ScalarView,
    right: ScalarView,
    field_type: Option<FieldType>,
) -> Option<Place> {
    match field_type {
        Some(FieldType::Int) | Some(FieldType::Float) => numeric_place(left, right),
        Some(FieldType::Date) => date_place(left, right),
        _ => {
            if numeric_place(left, right) is Some {
                numeric_place(left, right)
            } else if date_place(left, right) is Some {
                date_place(left, right)
            } else {
                Some(text_order(left.text, right.text))
            }
        },
    }
}

/// How two doubles, given by their bits, compare.
pub fn compare_doubles(a: u64, b: u64) -> (r: Option<Place>)
    ensures
        r == double_place(a, b),
{
    let x: u64 = if a < 0x8000_0000_0000_0000 {
        a
    } else {
        a - 0x8000_0000_0000_0000
    };
    let y: u64 = if b < 0x8000_0000_0000_0000 {
        b
    } else {
        b - 0x8000_0000_0000_0000
    };
    assert(x == magnitude(a) && y == magnitude(b));
    if x > 0x7ff0_0000_0000_0000 || y > 0x7ff0_0000_0000_0000 {
        return None;
    }
    let j: i64 = if a < 0x8000_0000_0000_0000 {
        x as i64
    } else {
        -(x as i64)
    };
    let k: i64 = if b < 0x8000_0000_0000_0000 {
        y as i64
    } else {
        -(y as i64)
    };
    if j < k {
        Some(Place::Less)
    } else if j > k {
        Some(Place::Greater)
    } else {
        Some(Place::Equal)
    }
}

/// How two values compare as numbers.
pub fn compare_numeric(left: &Scalar, right: &Scalar) -> (r: Option<Place>)
    ensures
        r == numeric_place(left@, right@),
{
    match (left.number, right.number) {
        (Some(a), Some(b)) => compare_doubles(a, b),
        _ => None,
    }
}

/// How two values compare as dates.
pub fn compare_dates(left: &Scalar, right: &Scalar) -> (r: Option<Place>)
    ensures
        r == date_place(left@, right@),
{
    if left.date && right.date {
        Some(compare_text(left.text.as_str(), right.text.as_str()))
    } else {
        None
    }
}

/// How two values compare.
pub fn compare_places(left: &Scalar, right: &Scalar, field_type: Option<FieldType>) -> (r: Option<
    Place,
>)
    ensures
        r == value_place(left@, right@, field_type),
{
    match field_type {
        Some(FieldType::Int) => compare_numeric(left, right),
        Some(FieldType::Float) => compare_numeric(left, right),
        Some(FieldType::Date) => compare_dates(left, right),
        _ => {
            let n = compare_numeric(left, right);
            if n.is_some() {
                return n;
            }
            let d = compare_dates(left, right);
            if d.is_some() {
                return d;
            }
            Some(compare_text(left.text.as_str(), right.text.as_str()))
        },
    }
}

/// The standard library's word for a place.
pub open spec fn ordering_of(p: Option<Place>) -> Option<Ordering> {
    match p {
        None => None,
        Some(Place::Less) => Some(Ordering::Less),
        Some(Place::Equal) => Some(Ordering::Equal),
        Some(Place::Greater) => Some(Ordering::Greater),
    }
}

/// How two values compare, in the standard library's words.
pub fn compare_values(left: &Scalar, right: &Scalar, field_type: Option<FieldType>) -> (r: Option<
    Ordering,
>)
    ensures
        r == ordering_of(value_place(left@, right@, field_type)),
{
    match compare_places(left, right, field_type) {
        None => None,
        Some(Place::Less) => Some(Ordering::Less),
        Some(Place::Equal) => Some(Ordering::Equal),
        Some(Place::Greater) => Some(Ordering::Greater),
    }
}

/// Whether the left value equals the right one.
pub open spec fn is_equal(left: ScalarView, right: ScalarView, ft: Option<FieldType>) -> bool {
    value_place(left, right, ft) == Some(Place::Equal)
}

/// Whether the left value is at least the right one.
pub open spec fn at_least(left: ScalarView, right: ScalarView, ft: Option<FieldType>) -> bool {
    value_place(left, right, ft) == Some(Place::Greater) || is_equal(left, right, ft)
}

/// Whether the left value is at most the right one.
pub open spec fn at_most(left: ScalarView, right: ScalarView, ft: Option<FieldType>) -> bool {
    value_place(left, right, ft) == Some(Place::Less) || is_equal(left, right, ft)
}

/// Whether the value equals one of `members`.
pub open spec fn is_member(actual: ScalarView, members: Seq<ScalarView>, ft: Option<FieldType>) -> bool {
    exists|i: int| 0 <= i < members.len() && is_equal(actual, #[trigger] members[i], ft)
}

/// Whether a cell meets a condition.
pub open spec fn condition_holds(
    actual: ScalarView,
    op: ComparisonOp,
    value: ScalarView,
    value_to: Option<ScalarView>,
    members: Seq<ScalarView>,
    ft: Option<FieldType>,
) -> bool {
    match op {
        ComparisonOp::Eq => is_equal(actual, value, ft),
        ComparisonOp::Ne => !is_equal(actual, value, ft),
        ComparisonOp::Gt => value_place(actual, value, ft) == Some(Place::Greater),
        ComparisonOp::Gte => at_least(actual, value, ft),
        ComparisonOp::Lt => value_place(actual, value, ft) == Some(Place::Less),
        ComparisonOp::Lte => at_most(actual, value, ft),
        ComparisonOp::In => is_member(actual, members, ft),
        ComparisonOp::NotIn => !is_member(actual, members, ft),
        ComparisonOp::Between => match value_to {
            Some(upper) => at_least(actual, value, ft) && at_most(actual, upper, ft),
            None => false,
        },
        ComparisonOp::IsNull => blank(actual.text),
        ComparisonOp::IsNotNull => !blank(actual.text),
        ComparisonOp::Contains => occurs_in(lowercase(actual.text), lowercase(value.text)),
        ComparisonOp::StartsWith => lowercase(value.text).is_prefix_of(lowercase(actual.text)),
        ComparisonOp::EndsWith => lowercase(value.text).is_suffix_of(lowercase(actual.text)),
    }
}

/// The view of an optional value.
pub open spec fn scalar_option(v: Option<&Scalar>) -> Option<ScalarView> {
    match v {
        Some(s) => Some(s@),
        None => None,
    }
}

fn equals_any(actual: &Scalar, members: &[Scalar], field_type: Option<FieldType>) -> (r: bool)
    ensures
        r == is_member(actual@, scalars(members@), field_type),
{
    let mut i: usize = 0;
    while i < members.len()
        invariant
            i <= members@.len(),
            forall|k: int|
                0 <= k < i ==> !is_equal(actual@, #[trigger] scalars(members@)[k], field_type),
        decreases members@.len() - i,
    {
        if compare_places(actual, &members[i], field_type) == Some(Place::Equal) {
            assert(is_equal(actual@, scalars(members@)[i as int], field_type));
            return true;
        }
        i = i + 1;
    }
    false
}

/// Whether a cell meets a condition. `members` are the values that `In` and
/// `NotIn` speak of, in the order of `list_values`.
pub fn compare_filter_value(
    actual: &Scalar,
    op: ComparisonOp,
    value: &Scalar,
    value_to: Option<&Scalar>,
    members: &[Scalar],
    field_type: Option<FieldType>,
) -> (r: bool)
    ensures
        r == condition_holds(
            actual@,
            op,
            value@,
            scalar_option(value_to),
            scalars(members@),
            field_type,
        ),
{
    match op {
        ComparisonOp::Eq => compare_places(actual, value, field_type) == Some(Place::Equal),
        ComparisonOp::Ne => compare_places(actual, value, field_type) != Some(Place::Equal),
        ComparisonOp::Gt => compare_places(actual, value, field_type) == Some(Place::Greater),
        ComparisonOp::Gte => {
            let p = compare_places(actual, value, field_type);
            p == Some(Place::Greater) || p == Some(Place::Equal)
        },
        ComparisonOp::Lt => compare_places(actual, value, field_type) == Some(Place::Less),
        ComparisonOp::Lte => {
            let p = compare_places(actual, value, field_type);
            p == Some(Place::Less) || p == Some(Place::Equal)
        },
        ComparisonOp::In => equals_any(actual, members, field_type),
        ComparisonOp::NotIn => !equals_any(actual, members, field_type),
        ComparisonOp::Between => match value_to {
            None => false,
            Some(upper) => {
                let p = compare_places(actual, value, field_type);
                let q = compare_places(actual, upper, field_type);
                (p == Some(Place::Greater) || p == Some(Place::Equal)) && (q == Some(Place::Less)
                    || q == Some(Place::Equal))
            },
        },
        ComparisonOp::IsNull => is_nullish(actual.text.as_str()),
        ComparisonOp::IsNotNull => !is_nullish(actual.text.as_str()),
        ComparisonOp::Contains => {
            let a = actual.text.as_str().to_lowercase();
            let v = value.text.as_str().to_lowercase();
            contains_text(a.as_str(), v.as_str())
        },
        ComparisonOp::StartsWith => {
            let a = actual.text.as_str().to_lowercase();
            let v = value.text.as_str().to_lowercase();
            starts_with_text(a.as_str(), v.as_str())
        },
        ComparisonOp::EndsWith => {
            let a = actual.text.as_str().to_lowercase();
            let v = value.text.as_str().to_lowercase();
            ends_with_text(a.as_str(), v.as_str())
        },
    }
}

/// Whether the text holds nothing but white space.
pub fn is_nullish(value: &str) -> (r: bool)
    ensures
        r == blank(value@),
{
    is_blank(value)
}

/// Whether a list is cut at this character.
pub open spec fn list_separator(c: char) -> bool {
    c == ',' || c == ';'
}

/// The pieces, trimmed, without those that are then empty.
pub open spec fn nonblank_pieces(pieces: Seq<Seq<char>>) -> Seq<Seq<char>>
    decreases pieces.len(),
{
    if pieces.len() == 0 {
        Seq::empty()
    } else {
        let rest = nonblank_pieces(pieces.drop_last());
        let t = trim_spec(pieces.last());
        if t.len() == 0 {
            rest
        } else {
            rest.push(t)
        }
    }
}

/// The values that a list condition speaks of: the options where there are
/// any, else the trimmed non-empty pieces of the text between commas and
/// semicolons.
pub open spec fn listed(value: Seq<char>, options: Seq<Seq<char>>) -> Seq<Seq<char>> {
    if options.len() > 0 {
        options
    } else {
        nonblank_pieces(split_spec(value, |c: char| list_separator(c)))
    }
}

/// The values that a list condition speaks of.
pub fn list_values(value: &str, value_options: &[String]) -> (r: Vec<String>)
    ensures
        texts(r@) == listed(value@, texts(value_options@)),
{
    if value_options.len() > 0 {
        return clone_texts(value_options);
    }
    let mut out: Vec<String> = Vec::new();
    let cs = chars_of(value);
    let ghost cut = |c: char| list_separator(c);
    let mut piece: Vec<char> = Vec::new();
    let mut i: usize = 0;
    assert(cs@.take(0) =~= Seq::<char>::empty());
    assert(split_spec(cs@.take(0), cut) =~= seq![Seq::<char>::empty()]);
    assert(seq![Seq::<char>::empty()].drop_last() =~= Seq::<Seq<char>>::empty());
    while i < cs.len()
        invariant
            i <= cs@.len(),
            cut == (|c: char| list_separator(c)),
            split_spec(cs@.take(i as int), cut).len() > 0,
            split_spec(cs@.take(i as int), cut).last() == piece@,
            texts(out@) == nonblank_pieces(split_spec(cs@.take(i as int), cut).drop_last()),
        decreases cs@.len() - i,
    {
        let ghost before = split_spec(cs@.take(i as int), cut);
        let ghost after = split_spec(cs@.take(i + 1), cut);
        let c = cs[i];
        assert(cs@.take(i + 1).drop_last() =~= cs@.take(i as int));
        assert(cs@.take(i + 1).last() == c);
        if c == ',' || c == ';' {
            assert(after == before.push(Seq::empty()));
            assert(after.drop_last() =~= before);
            let t = trim_chars(&piece);
            if !t.as_str().is_empty() {
                out.push(t);
                assert(texts(out@) =~= nonblank_pieces(before));
            }
            piece = Vec::new();
        } else {
            piece.push(c);
            assert(after.drop_last() =~= before.drop_last());
        }
        i = i + 1;
    }
    assert(cs@.take(i as int) =~= cs@);
    let t = trim_chars(&piece);
    if !t.as_str().is_empty() {
        let ghost kept = texts(out@);
        out.push(t);
        assert(texts(out@) =~= kept.push(t@));
    }
    out
}

/// A condition that a query puts on a field.
///
/// `value_options` lists the values of a list condition one by one; where it
/// is empty they are read out of `value`. `members` are those values as they
/// read, in the order of `list_values`.
#[derive(Debug)]
pub struct Filter {
    pub field: String,
    pub op: ComparisonOp,
    pub value: Scalar,
    pub value_to: Option<Scalar>,
    pub field_type: Option<FieldType>,
    pub value_options: Vec<String>,
    pub members: Vec<Scalar>,
}

/// What a `Filter` stands for.
#[verifier::ext_equal]
pub struct FilterView {
    pub field: Seq<char>,
    pub op: ComparisonOp,
    pub value: ScalarView,
    pub value_to: Option<ScalarView>,
    pub field_type: Option<FieldType>,
    pub value_options: Seq<Seq<char>>,
    pub members: Seq<ScalarView>,
}

impl View for Filter {
    type V = FilterView;

    open spec fn view(&self) -> FilterView {
        FilterView {
            field: self.field@,
            op: self.op,
            value: self.value@,
            value_to: match self.value_to {
                Some(s) => Some(s@),
                None => None,
            },
            field_type: self.field_type,
            value_options: texts(self.value_options@),
            members: scalars(self.members@),
        }
    }
}

impl FilterView {
    /// Whether a cell meets the filter.
    pub open spec fn holds(self, actual: ScalarView) -> bool {
        condition_holds(
            actual,
            self.op,
            self.value,
            self.value_to,
            self.members,
            self.field_type,
        )
    }

    /// Whether the filter has a field and a value; a question mark stands for
    /// one that was left open.
    pub open spec fn complete(self) -> bool {
        self.field != "?"@ && self.value.text != "?"@
    }

    /// Whether the members are the values that the condition lists.
    pub open spec fn consistent(self) -> bool {
        self.members.map_values(|m: ScalarView| m.text) == listed(
            self.value.text,
            self.value_options,
        )
    }
}

/// Copies a list of values.
pub fn clone_scalars(v: &[Scalar]) -> (r: Vec<Scalar>)
    ensures
        scalars(r@) == scalars(v@),
{
    let mut out: Vec<Scalar> = Vec::new();
    let mut i: usize = 0;
    while i < v.len()
        invariant
            i <= v@.len(),
            scalars(out@) == scalars(v@).take(i as int),
        decreases v@.len() - i,
    {
        let ghost copied = scalars(out@);
        out.push(v[i].clone());
        i = i + 1;
        assert(scalars(out@) =~= copied.push(scalars(v@)[i - 1]));
        assert(scalars(out@) =~= scalars(v@).take(i as int));
    }
    assert(scalars(v@).take(i as int) =~= scalars(v@));
    out
}

impl Clone for Filter {
    fn clone(&self) -> (r: Self)
        ensures
            r@ == self@,
    {
        Filter {
            field: self.field.clone(),
            op: self.op,
            value: self.value.clone(),
            value_to: match &self.value_to {
                Some(s) => Some(s.clone()),
                None => None,
            },
            field_type: self.field_type,
            value_options: clone_texts(self.value_options.as_slice()),
            members: clone_scalars(self.members.as_slice()),
        }
    }
}

/// The views of a list of filters.
pub open spec fn filter_views(v: Seq<Filter>) -> Seq<FilterView> {
    v.map_values(|f: Filter| f@)
}

impl Filter {
    /// Whether a cell meets the filter.
    pub fn holds(&self, actual: &Scalar) -> (r: bool)
        ensures
            r == self@.holds(actual@),
    {
        let upper: Option<&Scalar> = match &self.value_to {
            Some(s) => Some(s),
            None => None,
        };
        compare_filter_value(
            actual,
            self.op,
            &self.value,
            upper,
            self.members.as_slice(),
            self.field_type,
        )
    }

    /// Whether the filter has a field and a value.
    pub fn is_complete(&self) -> (r: bool)
        ensures
            r == self@.complete(),
    {
        !same_text(self.field.as_str(), "?") && !same_text(self.value.text.as_str(), "?")
    }
}

/// One key of a sort.
#[derive(Debug)]
pub struct OrderBy {
    pub field: String,
    pub direction: SortDirection,
}

/// Who asks, and the column by which their rows are told apart.
#[derive(Debug)]
pub struct AuthContext {
    pub user_id: Scalar,
    pub token: String,
    pub entity: String,
    pub filter_col: String,
}

/// `Ne`, `NotIn` and `IsNotNull` hold of exactly the cells of which `Eq`, `In`
/// and `IsNull` do not.
pub proof fn law_negated_conditions(
    actual: ScalarView,
    value: ScalarView,
    value_to: Option<ScalarView>,
    members: Seq<ScalarView>,
    ft: Option<FieldType>,
)
    ensures
        condition_holds(actual, ComparisonOp::Ne, value, value_to, members, ft)
            == !condition_holds(actual, ComparisonOp::Eq, value, value_to, members, ft),
        condition_holds(actual, ComparisonOp::NotIn, value, value_to, members, ft)
            == !condition_holds(actual, ComparisonOp::In, value, value_to, members, ft),
        condition_holds(actual, ComparisonOp::IsNotNull, value, value_to, members, ft)
            == !condition_holds(actual, ComparisonOp::IsNull, value, value_to, members, ft),
{
}

/// `Between` asks for `Gte` of the lower and `Lte` of the upper bound.
pub proof fn law_between_is_both_bounds(
    actual: ScalarView,
    value: ScalarView,
    upper: ScalarView,
    members: Seq<ScalarView>,
    ft: Option<FieldType>,
)
    ensures
        condition_holds(actual, ComparisonOp::Between, value, Some(upper), members, ft) == (
        condition_holds(actual, ComparisonOp::Gte, value, None, members, ft) && condition_holds(
            actual,
            ComparisonOp::Lte,
            upper,
            None,
            members,
            ft,
        )),
{
}

/// Comparing the other way round swaps `Less` and `Greater`.
pub proof fn law_comparison_antisymmetric(
    left: ScalarView,
    right: ScalarView,
    ft: Option<FieldType>,
)
    ensures
        value_place(left, right, ft) is None <==> value_place(right, left, ft) is None,
        value_place(left, right, ft) == Some(Place::Less) <==> value_place(right, left, ft) == Some(
            Place::Greater,
        ),
        value_place(left, right, ft) == Some(Place::Equal) <==> value_place(right, left, ft)
            == Some(Place::Equal),
{
    crate::text::lemma_text_less_asymmetric(left.text, right.text);
}

/// A value whose readings do not end in "not a number" equals itself.
pub proof fn law_comparison_reflexive(v: ScalarView)
    requires
        v.number is Some ==> !not_a_number(v.number->0),
    ensures
        is_equal(v, v, None),
{
    lemma_text_order_equal(v.text, v.text);
}

} // verus!
