//! Predicates on rows.
use crate::order;
use crate::order::Sense;
use crate::row;
use crate::row::{Row, RowModel};
use crate::schema::{Moment, MomentModel};
use crate::text;
use vstd::prelude::*;

verus! {

/// The numbers that byte strings spell, each as an integer that orders them as the numbers do.
/// Byte strings without an entry spell no number.
#[derive(Debug)]
pub struct Readings {
    pub entries: Vec<(Vec<u8>, i64)>,
}

/// What a statement is evaluated under: the moment, and the readings of byte strings as numbers.
#[derive(Debug)]
pub struct Context {
    pub moment: Moment,
    pub readings: Readings,
}

pub struct ContextModel {
    pub moment: MomentModel,
    pub readings: Seq<(Seq<u8>, i64)>,
}

impl View for Context {
    type V = ContextModel;

    open spec fn view(&self) -> ContextModel {
        ContextModel { moment: self.moment@, readings: self.readings.entries.deep_view() }
    }
}

/// The reading of a byte string: that of the first entry for it.
pub open spec fn reading_from(entries: Seq<(Seq<u8>, i64)>, b: Seq<u8>, at: int) -> Option<i64>
    decreases entries.len() - at,
{
    if at < 0 || at >= entries.len() {
        None
    } else if entries[at].0 == b {
        Some(entries[at].1)
    } else {
        reading_from(entries, b, at + 1)
    }
}

impl Readings {
    pub fn of(&self, b: &[u8]) -> (r: Option<i64>)
        ensures
            r == reading_from(self.entries.deep_view(), b@, 0),
    {
        let ghost entries = self.entries.deep_view();
        let mut i: usize = 0;
        while i < self.entries.len()
            invariant
                i <= self.entries@.len(),
                entries == self.entries.deep_view(),
                reading_from(entries, b@, i as int) == reading_from(entries, b@, 0),
            decreases self.entries@.len() - i,
        {
            proof {
                row::bytes_model(self.entries@[i as int].0);
                assert(entries[i as int].0 == self.entries@[i as int].0@);
                assert(entries[i as int].1 == self.entries@[i as int].1);
            }
            if text::bytes_equal(self.entries[i].0.as_slice(), b) {
                return Some(self.entries[i].1);
            }
            i += 1;
        }
        None
    }
}

#[derive(Debug, PartialEq, Eq)]
pub enum RowPredicate {
    Eq(String, Vec<u8>),
    NotEq(String, Vec<u8>),
    Less(String, Vec<u8>),
    LessOrEq(String, Vec<u8>),
    Greater(String, Vec<u8>),
    GreaterOrEq(String, Vec<u8>),
    In(String, Vec<Vec<u8>>),
    Between(String, Vec<u8>, Vec<u8>),
    Like(String, Vec<u8>),
    And(Box<RowPredicate>, Box<RowPredicate>),
    Or(Box<RowPredicate>, Box<RowPredicate>),
    IsNull(String),
    IsNotNull(String),
    Never,
}

pub enum PredicateModel {
    Eq(Seq<char>, Seq<u8>),
    NotEq(Seq<char>, Seq<u8>),
    Less(Seq<char>, Seq<u8>),
    LessOrEq(Seq<char>, Seq<u8>),
    Greater(Seq<char>, Seq<u8>),
    GreaterOrEq(Seq<char>, Seq<u8>),
    In(Seq<char>, Seq<Seq<u8>>),
    Between(Seq<char>, Seq<u8>, Seq<u8>),
    Like(Seq<char>, Seq<u8>),
    And(Box<PredicateModel>, Box<PredicateModel>),
    Or(Box<PredicateModel>, Box<PredicateModel>),
    IsNull(Seq<char>),
    IsNotNull(Seq<char>),
    Never,
}

/// What a predicate says.
pub open spec fn predicate_model(p: RowPredicate) -> PredicateModel
    decreases p,
{
    match p {
        RowPredicate::Eq(c, v) => PredicateModel::Eq(c@, v@),
        RowPredicate::NotEq(c, v) => PredicateModel::NotEq(c@, v@),
        RowPredicate::Less(c, v) => PredicateModel::Less(c@, v@),
        RowPredicate::LessOrEq(c, v) => PredicateModel::LessOrEq(c@, v@),
        RowPredicate::Greater(c, v) => PredicateModel::Greater(c@, v@),
        RowPredicate::GreaterOrEq(c, v) => PredicateModel::GreaterOrEq(c@, v@),
        RowPredicate::In(c, v) => PredicateModel::In(c@, v.deep_view()),
        RowPredicate::Between(c, a, b) => PredicateModel::Between(c@, a@, b@),
        RowPredicate::Like(c, v) => PredicateModel::Like(c@, v@),
        RowPredicate::And(a, b) => PredicateModel::And(
            Box::new(predicate_model(*a)),
            Box::new(predicate_model(*b)),
        ),
        RowPredicate::Or(a, b) => PredicateModel::Or(
            Box::new(predicate_model(*a)),
            Box::new(predicate_model(*b)),
        ),
        RowPredicate::IsNull(c) => PredicateModel::IsNull(c@),
        RowPredicate::IsNotNull(c) => PredicateModel::IsNotNull(c@),
        RowPredicate::Never => PredicateModel::Never,
    }
}

impl View for RowPredicate {
    type V = PredicateModel;

    open spec fn view(&self) -> PredicateModel {
        predicate_model(*self)
    }
}

impl DeepView for RowPredicate {
    type V = PredicateModel;

    open spec fn deep_view(&self) -> PredicateModel {
        self@
    }
}

pub fn copy_byte_strings(list: &Vec<Vec<u8>>) -> (r: Vec<Vec<u8>>)
    ensures
        r.deep_view() == list.deep_view(),
{
    let mut out: Vec<Vec<u8>> = Vec::new();
    let mut i: usize = 0;
    while i < list.len()
        invariant
            i <= list@.len(),
            out@.len() == i,
            forall|j: int| 0 <= j < i ==> (#[trigger] out@[j])@ == list@[j]@,
        decreases list@.len() - i,
    {
        out.push(text::copy_bytes(list[i].as_slice()));
        i += 1;
    }
    assert forall|j: int| 0 <= j < out@.len() implies out.deep_view()[j] == list.deep_view()[j] by {
        row::bytes_model(out@[j]);
        row::bytes_model(list@[j]);
    }
    assert(out.deep_view() =~= list.deep_view());
    out
}

impl Clone for RowPredicate {
    fn clone(&self) -> (r: Self)
        ensures
            r@ == self@,
        decreases self,
    {
        match self {
            RowPredicate::Eq(c, v) => RowPredicate::Eq(c.clone(), text::copy_bytes(v.as_slice())),
            RowPredicate::NotEq(c, v) => RowPredicate::NotEq(
                c.clone(),
                text::copy_bytes(v.as_slice()),
            ),
            RowPredicate::Less(c, v) => RowPredicate::Less(
                c.clone(),
                text::copy_bytes(v.as_slice()),
            ),
            RowPredicate::LessOrEq(c, v) => RowPredicate::LessOrEq(
                c.clone(),
                text::copy_bytes(v.as_slice()),
            ),
            RowPredicate::Greater(c, v) => RowPredicate::Greater(
                c.clone(),
                text::copy_bytes(v.as_slice()),
            ),
            RowPredicate::GreaterOrEq(c, v) => RowPredicate::GreaterOrEq(
                c.clone(),
                text::copy_bytes(v.as_slice()),
            ),
            RowPredicate::In(c, v) => RowPredicate::In(c.clone(), copy_byte_strings(v)),
            RowPredicate::Between(c, a, b) => RowPredicate::Between(
                c.clone(),
                text::copy_bytes(a.as_slice()),
                text::copy_bytes(b.as_slice()),
            ),
            RowPredicate::Like(c, v) => RowPredicate::Like(
                c.clone(),
                text::copy_bytes(v.as_slice()),
            ),
            RowPredicate::And(a, b) => {
                let x = (&**a).clone();
                let y = (&**b).clone();
                RowPredicate::And(Box::new(x), Box::new(y))
            },
            RowPredicate::Or(a, b) => {
                let x = (&**a).clone();
                let y = (&**b).clone();
                RowPredicate::Or(Box::new(x), Box::new(y))
            },
            RowPredicate::IsNull(c) => RowPredicate::IsNull(c.clone()),
            RowPredicate::IsNotNull(c) => RowPredicate::IsNotNull(c.clone()),
            RowPredicate::Never => RowPredicate::Never,
        }
    }
}

// ---------------------------------------------------------------------------------------------
// Comparison
// ---------------------------------------------------------------------------------------------
/// How two values compare: as numbers where both read as one, and by their bytes otherwise.
pub open spec fn read_sense(left: Seq<u8>, right: Seq<u8>, cx: ContextModel) -> Sense {
    match (reading_from(cx.readings, left, 0), reading_from(cx.readings, right, 0)) {
        (Some(a), Some(b)) => order::sense_of(a as int, b as int),
        _ => order::bytes_sense(left, right),
    }
}

/// How a column's value compares with an expected one: not at all where it is missing or NULL.
pub open spec fn column_sense(r: RowModel, column: Seq<char>, expected: Seq<u8>, cx: ContextModel) -> Option<
    Sense,
> {
    match r.present(column) {
        None => None,
        Some(actual) => Some(read_sense(actual, expected, cx)),
    }
}

pub fn compare_row_value(r: &Row, column: &str, expected: &[u8], cx: &Context) -> (s: Option<
    Sense,
>)
    ensures
        s == column_sense(r@, column@, expected@, cx@),
{
    if r.is_null(column) {
        return None;
    }
    match r.get(column) {
        None => None,
        Some(actual) => {
            let a = cx.readings.of(actual);
            let b = cx.readings.of(expected);
            match (a, b) {
                (Some(x), Some(y)) => Some(
                    if x < y {
                        Sense::Less
                    } else if x == y {
                        Sense::Equal
                    } else {
                        Sense::Greater
                    },
                ),
                _ => Some(order::sense_bytes(actual, expected)),
            }
        },
    }
}

/// Whether a value from `v` on matches a LIKE pattern from `p` on: `%` stands for any bytes, `_`
/// for one, and a backslash takes the next byte as it is.
pub open spec fn like(value: Seq<u8>, pattern: Seq<u8>, v: int, p: int) -> bool
    decreases pattern.len() - p, value.len() - v,
{
    if p < 0 || v < 0 || p >= pattern.len() {
        v == value.len()
    } else if pattern[p] == 0x25 {
        like(value, pattern, v, p + 1) || (v < value.len() && like(value, pattern, v + 1, p))
    } else if pattern[p] == 0x5f {
        v < value.len() && like(value, pattern, v + 1, p + 1)
    } else if pattern[p] == 0x5c && p + 1 < pattern.len() {
        v < value.len() && value[v] == pattern[p + 1] && like(value, pattern, v + 1, p + 2)
    } else {
        v < value.len() && value[v] == pattern[p] && like(value, pattern, v + 1, p + 1)
    }
}

fn like_from(value: &[u8], pattern: &[u8], v: usize, p: usize) -> (r: bool)
    requires
        v <= value@.len(),
        p <= pattern@.len(),
    ensures
        r == like(value@, pattern@, v as int, p as int),
    decreases pattern@.len() - p, value@.len() - v,
{
    if p == pattern.len() {
        return v == value.len();
    }
    let b = pattern[p];
    if b == 0x25 {
        like_from(value, pattern, v, p + 1) || (v < value.len() && like_from(
            value,
            pattern,
            v + 1,
            p,
        ))
    } else if b == 0x5f {
        v < value.len() && like_from(value, pattern, v + 1, p + 1)
    } else if b == 0x5c && p + 1 < pattern.len() {
        v < value.len() && value[v] == pattern[p + 1] && like_from(value, pattern, v + 1, p + 2)
    } else {
        v < value.len() && value[v] == b && like_from(value, pattern, v + 1, p + 1)
    }
}

pub fn mysql_like_matches(value: &[u8], pattern: &[u8]) -> (r: bool)
    ensures
        r == like(value@, pattern@, 0, 0),
{
    like_from(value, pattern, 0, 0)
}

/// The pattern `%` alone matches every value.
pub proof fn percent_matches_all(value: Seq<u8>, v: int)
    requires
        0 <= v <= value.len(),
    ensures
        like(value, seq![0x25u8], v, 0),
    decreases value.len() - v,
{
    if v < value.len() {
        percent_matches_all(value, v + 1);
    } else {
        assert(like(value, seq![0x25u8], v, 1));
    }
}

// ---------------------------------------------------------------------------------------------
// Matching
// ---------------------------------------------------------------------------------------------
/// Whether a row satisfies a predicate. A NULL or missing column satisfies none but IS NULL, and
/// that only where the column is there.
pub open spec fn satisfies(p: PredicateModel, r: RowModel, cx: ContextModel) -> bool
    decreases p,
{
    match p {
        PredicateModel::Eq(c, v) => r.present(c) == Some(v),
        PredicateModel::NotEq(c, v) => r.present(c) is Some && r.present(c) != Some(v),
        PredicateModel::Less(c, v) => column_sense(r, c, v, cx) == Some(Sense::Less),
        PredicateModel::LessOrEq(c, v) => column_sense(r, c, v, cx) matches Some(s) && s
            != Sense::Greater,
        PredicateModel::Greater(c, v) => column_sense(r, c, v, cx) == Some(Sense::Greater),
        PredicateModel::GreaterOrEq(c, v) => column_sense(r, c, v, cx) matches Some(s) && s
            != Sense::Less,
        PredicateModel::In(c, list) => r.present(c) matches Some(v) && list.contains(v),
        PredicateModel::Between(c, a, b) => (column_sense(r, c, a, cx) matches Some(s) && s
            != Sense::Less) && (column_sense(r, c, b, cx) matches Some(t) && t != Sense::Greater),
        PredicateModel::Like(c, pattern) => r.present(c) matches Some(v) && like(v, pattern, 0, 0),
        PredicateModel::And(a, b) => satisfies(*a, r, cx) && satisfies(*b, r, cx),
        PredicateModel::Or(a, b) => satisfies(*a, r, cx) || satisfies(*b, r, cx),
        PredicateModel::IsNull(c) => r.contains(c) && r.is_null(c),
        PredicateModel::IsNotNull(c) => r.contains(c) && !r.is_null(c),
        PredicateModel::Never => false,
    }
}

fn present_value<'a>(r: &'a Row, column: &str) -> (v: Option<&'a [u8]>)
    ensures
        v is Some == r@.present(column@) is Some,
        v matches Some(b) ==> r@.present(column@) == Some(b@),
{
    if r.is_null(column) {
        None
    } else {
        r.get(column)
    }
}

fn list_contains(list: &Vec<Vec<u8>>, v: &[u8]) -> (r: bool)
    ensures
        r == list.deep_view().contains(v@),
{
    let mut i: usize = 0;
    while i < list.len()
        invariant
            i <= list@.len(),
            forall|j: int| 0 <= j < i ==> list.deep_view()[j] != v@,
        decreases list@.len() - i,
    {
        proof {
            row::bytes_model(list@[i as int]);
            assert(list.deep_view()[i as int] == list@[i as int]@);
        }
        if text::bytes_equal(list[i].as_slice(), v) {
            return true;
        }
        i += 1;
    }
    false
}

/// The columns that a predicate speaks of, from left to right.
pub open spec fn predicate_columns(p: PredicateModel) -> Seq<Seq<char>>
    decreases p,
{
    match p {
        PredicateModel::Eq(c, _) => seq![c],
        PredicateModel::NotEq(c, _) => seq![c],
        PredicateModel::Less(c, _) => seq![c],
        PredicateModel::LessOrEq(c, _) => seq![c],
        PredicateModel::Greater(c, _) => seq![c],
        PredicateModel::GreaterOrEq(c, _) => seq![c],
        PredicateModel::In(c, _) => seq![c],
        PredicateModel::Between(c, _, _) => seq![c],
        PredicateModel::Like(c, _) => seq![c],
        PredicateModel::And(a, b) => predicate_columns(*a) + predicate_columns(*b),
        PredicateModel::Or(a, b) => predicate_columns(*a) + predicate_columns(*b),
        PredicateModel::IsNull(c) => seq![c],
        PredicateModel::IsNotNull(c) => seq![c],
        PredicateModel::Never => Seq::empty(),
    }
}

fn one_name(c: &String) -> (r: Vec<String>)
    ensures
        r.deep_view() == seq![c@],
{
    let mut out: Vec<String> = Vec::new();
    out.push(c.clone());
    assert(out.deep_view() =~= seq![c@]);
    out
}

impl RowPredicate {
    pub fn matches(&self, r: &Row, cx: &Context) -> (res: bool)
        ensures
            res == satisfies(self@, r@, cx@),
        decreases self,
    {
        match self {
            RowPredicate::Eq(c, v) => match present_value(r, c.as_str()) {
                Some(actual) => text::bytes_equal(actual, v.as_slice()),
                None => false,
            },
            RowPredicate::NotEq(c, v) => match present_value(r, c.as_str()) {
                Some(actual) => !text::bytes_equal(actual, v.as_slice()),
                None => false,
            },
            RowPredicate::Less(c, v) => match compare_row_value(r, c.as_str(), v.as_slice(), cx) {
                Some(s) => s == Sense::Less,
                None => false,
            },
            RowPredicate::LessOrEq(c, v) => match compare_row_value(
                r,
                c.as_str(),
                v.as_slice(),
                cx,
            ) {
                Some(s) => s != Sense::Greater,
                None => false,
            },
            RowPredicate::Greater(c, v) => match compare_row_value(
                r,
                c.as_str(),
                v.as_slice(),
                cx,
            ) {
                Some(s) => s == Sense::Greater,
                None => false,
            },
            RowPredicate::GreaterOrEq(c, v) => match compare_row_value(
                r,
                c.as_str(),
                v.as_slice(),
                cx,
            ) {
                Some(s) => s != Sense::Less,
                None => false,
            },
            RowPredicate::In(c, list) => match present_value(r, c.as_str()) {
                Some(actual) => list_contains(list, actual),
                None => false,
            },
            RowPredicate::Between(c, a, b) => {
                let low = match compare_row_value(r, c.as_str(), a.as_slice(), cx) {
                    Some(s) => s != Sense::Less,
                    None => false,
                };
                let high = match compare_row_value(r, c.as_str(), b.as_slice(), cx) {
                    Some(s) => s != Sense::Greater,
                    None => false,
                };
                low && high
            },
            RowPredicate::Like(c, pattern) => match present_value(r, c.as_str()) {
                Some(actual) => mysql_like_matches(actual, pattern.as_slice()),
                None => false,
            },
            RowPredicate::And(a, b) => (&**a).matches(r, cx) && (&**b).matches(r, cx),
            RowPredicate::Or(a, b) => (&**a).matches(r, cx) || (&**b).matches(r, cx),
            RowPredicate::IsNull(c) => r.contains(c.as_str()) && r.is_null(c.as_str()),
            RowPredicate::IsNotNull(c) => r.contains(c.as_str()) && !r.is_null(c.as_str()),
            RowPredicate::Never => false,
        }
    }

    pub fn columns(&self) -> (r: Vec<String>)
        ensures
            r.deep_view() == predicate_columns(self@),
        decreases self,
    {
        match self {
            RowPredicate::Eq(c, _) => one_name(c),
            RowPredicate::NotEq(c, _) => one_name(c),
            RowPredicate::Less(c, _) => one_name(c),
            RowPredicate::LessOrEq(c, _) => one_name(c),
            RowPredicate::Greater(c, _) => one_name(c),
            RowPredicate::GreaterOrEq(c, _) => one_name(c),
            RowPredicate::In(c, _) => one_name(c),
            RowPredicate::Between(c, _, _) => one_name(c),
            RowPredicate::Like(c, _) => one_name(c),
            RowPredicate::And(a, b) => {
                let mut left = (&**a).columns();
                let mut right = (&**b).columns();
                let ghost x = left.deep_view();
                let ghost y = right.deep_view();
                left.append(&mut right);
                assert(left.deep_view() =~= x + y);
                left
            },
            RowPredicate::Or(a, b) => {
                let mut left = (&**a).columns();
                let mut right = (&**b).columns();
                let ghost x = left.deep_view();
                let ghost y = right.deep_view();
                left.append(&mut right);
                assert(left.deep_view() =~= x + y);
                left
            },
            RowPredicate::IsNull(c) => one_name(c),
            RowPredicate::IsNotNull(c) => one_name(c),
            RowPredicate::Never => {
                let out: Vec<String> = Vec::new();
                assert(out.deep_view() =~= Seq::empty());
                out
            },
        }
    }
}

/// Whether a row passes a filter; without one every row does.
pub open spec fn passes(filter: Option<PredicateModel>, r: RowModel, cx: ContextModel) -> bool {
    match filter {
        Some(p) => satisfies(p, r, cx),
        None => true,
    }
}

pub fn row_matches(r: &Row, filter: &Option<RowPredicate>, cx: &Context) -> (res: bool)
    ensures
        res == passes(filter.deep_view(), r@, cx@),
{
    match filter {
        Some(p) => p.matches(r, cx),
        None => true,
    }
}

} // verus!
