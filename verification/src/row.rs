//! Rows: named byte values, some of them NULL, with column names compared without case.
use crate::assoc;
use crate::codec;
use crate::seqs;
use crate::text;
use vstd::hash_map::StringHashMap;
use vstd::prelude::*;
use vstd::utf8::{decode_utf8, encode_utf8, valid_utf8};

verus! {

/// A row as stored: column names with their bytes, in order, and the names of the NULL columns.
#[derive(Debug)]
pub struct Row {
    pub values: Vec<(String, Vec<u8>)>,
    pub row_id: u64,
    null_columns: Vec<String>,
}

/// What a row means.
#[verifier::ext_equal]
pub struct RowModel {
    pub values: Seq<(Seq<char>, Seq<u8>)>,
    pub nulls: Set<Seq<char>>,
    pub row_id: u64,
}

impl View for Row {
    type V = RowModel;

    closed spec fn view(&self) -> RowModel {
        RowModel {
            values: self.values.deep_view(),
            nulls: self.null_columns.deep_view().to_set(),
            row_id: self.row_id,
        }
    }
}

impl DeepView for Row {
    type V = RowModel;

    open spec fn deep_view(&self) -> RowModel {
        self@
    }
}

/// The first column at or after `from` whose name agrees with `name` up to case.
pub open spec fn column_from(
    values: Seq<(Seq<char>, Seq<u8>)>,
    name: Seq<char>,
    from: int,
) -> Option<int>
    decreases values.len() - from,
{
    if from < 0 || from >= values.len() {
        None
    } else if text::same_fold(values[from].0, name) {
        Some(from)
    } else {
        column_from(values, name, from + 1)
    }
}

/// Whether a name differs from `name` by more than case.
pub open spec fn other_than(name: Seq<char>) -> spec_fn(Seq<char>) -> bool {
    |column: Seq<char>| !text::same_fold(column, name)
}

pub open spec fn cell_other_than(name: Seq<char>) -> spec_fn((Seq<char>, Seq<u8>)) -> bool {
    |cell: (Seq<char>, Seq<u8>)| !text::same_fold(cell.0, name)
}

impl RowModel {
    pub open spec fn empty() -> RowModel {
        RowModel { values: Seq::empty(), nulls: Set::empty(), row_id: 0 }
    }

    /// The first column of that name.
    pub open spec fn column(self, name: Seq<char>) -> Option<int> {
        column_from(self.values, name, 0)
    }

    pub open spec fn contains(self, name: Seq<char>) -> bool {
        self.column(name) is Some
    }

    pub open spec fn is_null(self, name: Seq<char>) -> bool {
        exists|column: Seq<char>| #[trigger]
            self.nulls.contains(column) && text::same_fold(column, name)
    }

    pub open spec fn get(self, name: Seq<char>) -> Option<Seq<u8>> {
        match self.column(name) {
            Some(i) => Some(self.values[i].1),
            None => None,
        }
    }

    /// The value of a column that is neither missing nor NULL.
    pub open spec fn present(self, name: Seq<char>) -> Option<Seq<u8>> {
        if self.is_null(name) {
            None
        } else {
            self.get(name)
        }
    }

    pub open spec fn pushed(self, name: Seq<char>, value: Seq<u8>) -> RowModel {
        RowModel {
            values: self.values.push((name, value)),
            nulls: self.nulls.filter(other_than(name)),
            row_id: self.row_id,
        }
    }

    pub open spec fn pushed_null(self, name: Seq<char>) -> RowModel {
        RowModel {
            values: self.values.push((name, Seq::empty())),
            nulls: self.nulls.insert(name),
            row_id: self.row_id,
        }
    }

    pub open spec fn with(self, name: Seq<char>, value: Seq<u8>) -> RowModel {
        RowModel {
            values: match self.column(name) {
                Some(i) => self.values.update(i, (self.values[i].0, value)),
                None => self.values.push((name, value)),
            },
            nulls: self.nulls.filter(other_than(name)),
            row_id: self.row_id,
        }
    }

    pub open spec fn with_null(self, name: Seq<char>) -> RowModel {
        match self.column(name) {
            Some(i) => RowModel {
                values: self.values.update(i, (self.values[i].0, Seq::empty())),
                nulls: self.nulls.filter(other_than(name)).insert(self.values[i].0),
                row_id: self.row_id,
            },
            None => RowModel {
                values: self.values.push((name, Seq::empty())),
                nulls: self.nulls.filter(other_than(name)).insert(name),
                row_id: self.row_id,
            },
        }
    }

    pub open spec fn renamed(self, old_name: Seq<char>, new_name: Seq<char>) -> RowModel {
        if text::same_fold(old_name, new_name) {
            self
        } else {
            let kept = self.nulls.filter(other_than(old_name));
            RowModel {
                values: match self.column(old_name) {
                    Some(i) => self.values.update(i, (new_name, self.values[i].1)),
                    None => self.values,
                },
                nulls: if self.is_null(old_name) {
                    kept.insert(new_name)
                } else {
                    kept
                },
                row_id: self.row_id,
            }
        }
    }

    pub open spec fn without(self, name: Seq<char>) -> RowModel {
        RowModel {
            values: self.values.filter(cell_other_than(name)),
            nulls: self.nulls.filter(other_than(name)),
            row_id: self.row_id,
        }
    }
}

/// The names that differ from `name` by more than case.
fn names_without(names: &Vec<String>, name: &str) -> (r: Vec<String>)
    ensures
        r.deep_view() == names.deep_view().filter(other_than(name@)),
{
    let mut out: Vec<String> = Vec::new();
    let mut i: usize = 0;
    assert(names.deep_view().take(0).filter(other_than(name@)) =~= Seq::empty()) by {
        reveal(Seq::filter);
    }
    while i < names.len()
        invariant
            i <= names@.len(),
            out.deep_view() == names.deep_view().take(i as int).filter(other_than(name@)),
        decreases names@.len() - i,
    {
        proof {
            seqs::filter_step(names.deep_view(), i as int, other_than(name@));
        }
        let ghost before = out.deep_view();
        if !text::eq_fold(names[i].as_str(), name) {
            out.push(text::copy_text(names[i].as_str()));
            assert(out.deep_view() =~= before.push(names@[i as int]@));
        }
        i += 1;
    }
    assert(names.deep_view().take(i as int) =~= names.deep_view());
    out
}

fn names_contain(names: &Vec<String>, name: &str) -> (r: bool)
    ensures
        r == names.deep_view().contains(name@),
{
    let mut i: usize = 0;
    while i < names.len()
        invariant
            i <= names@.len(),
            forall|j: int| 0 <= j < i ==> names@[j]@ != name@,
        decreases names@.len() - i,
    {
        if text::text_equal(names[i].as_str(), name) {
            assert(names.deep_view()[i as int] == name@);
            return true;
        }
        i += 1;
    }
    false
}

pub fn copy_cells(values: &Vec<(String, Vec<u8>)>) -> (r: Vec<(String, Vec<u8>)>)
    ensures
        r.deep_view() == values.deep_view(),
{
    let mut out: Vec<(String, Vec<u8>)> = Vec::new();
    let mut i: usize = 0;
    while i < values.len()
        invariant
            i <= values@.len(),
            out@.len() == i,
            forall|j: int|
                0 <= j < i ==> (#[trigger] out@[j]).0@ == values@[j].0@ && out@[j].1@
                    == values@[j].1@,
        decreases values@.len() - i,
    {
        out.push((values[i].0.clone(), text::copy_bytes(values[i].1.as_slice())));
        i += 1;
    }
    assert forall|j: int| 0 <= j < out@.len() implies out.deep_view()[j] == values.deep_view()[j] by {
        assert(out@[j].1.deep_view() =~= out@[j].1@);
        assert(values@[j].1.deep_view() =~= values@[j].1@);
    }
    assert(out.deep_view() =~= values.deep_view());
    out
}

pub fn copy_names(names: &Vec<String>) -> (r: Vec<String>)
    ensures
        r.deep_view() == names.deep_view(),
{
    let r = names.clone();
    assert(r.deep_view() =~= names.deep_view());
    r
}

/// The bytes of a byte vector are its model.
pub proof fn bytes_model(v: Vec<u8>)
    ensures
        v.deep_view() == v@,
{
    assert(v.deep_view() =~= v@);
}

impl Row {
    pub fn new() -> (r: Self)
        ensures
            r@ == RowModel::empty(),
    {
        let r = Row { values: Vec::new(), row_id: 0, null_columns: Vec::new() };
        assert(r@ =~= RowModel::empty());
        r
    }

    /// The row without its identifier.
    pub fn without_id(&self) -> (r: Self)
        ensures
            r@ == (RowModel { row_id: 0, ..self@ }),
    {
        let mut r = self.clone();
        r.row_id = 0;
        r
    }

    pub fn id(&self) -> (r: u64)
        ensures
            r == self@.row_id,
    {
        self.row_id
    }

    /// How many values the row has.
    pub fn count(&self) -> (r: usize)
        ensures
            r == self@.values.len(),
    {
        self.values.len()
    }

    pub fn name_at(&self, i: usize) -> (r: &str)
        requires
            i < self@.values.len(),
        ensures
            r@ == self@.values[i as int].0,
    {
        self.values[i].0.as_str()
    }

    fn column(&self, name: &str) -> (r: Option<usize>)
        ensures
            r is Some == self@.column(name@) is Some,
            r matches Some(i) ==> i < self.values@.len() && self@.column(name@) == Some(i as int),
    {
        let mut i: usize = 0;
        while i < self.values.len()
            invariant
                i <= self.values@.len(),
                column_from(self@.values, name@, i as int) == self@.column(name@),
            decreases self.values@.len() - i,
        {
            if text::eq_fold(self.values[i].0.as_str(), name) {
                return Some(i);
            }
            i += 1;
        }
        None
    }

    pub fn push(&mut self, name: &str, value: Vec<u8>)
        ensures
            final(self)@ == old(self)@.pushed(name@, value@),
    {
        proof {
            seqs::filter_to_set(self.null_columns.deep_view(), other_than(name@));
            bytes_model(value);
        }
        self.null_columns = names_without(&self.null_columns, name);
        self.values.push((text::copy_text(name), value));
        assert(self@ =~= old(self)@.pushed(name@, value@));
    }

    pub fn push_null(&mut self, name: &str)
        ensures
            final(self)@ == old(self)@.pushed_null(name@),
    {
        let empty: Vec<u8> = Vec::new();
        proof {
            bytes_model(empty);
            seqs::push_to_set(self.null_columns.deep_view(), name@);
        }
        self.values.push((text::copy_text(name), empty));
        let ghost before = self.null_columns.deep_view();
        if !names_contain(&self.null_columns, name) {
            self.null_columns.push(text::copy_text(name));
            assert(self.null_columns.deep_view() =~= before.push(name@));
        } else {
            assert(before.to_set() =~= before.to_set().insert(name@));
        }
        assert(self@ =~= old(self)@.pushed_null(name@));
    }

    pub fn contains(&self, name: &str) -> (r: bool)
        ensures
            r == self@.contains(name@),
    {
        self.column(name).is_some()
    }

    pub fn is_null(&self, name: &str) -> (r: bool)
        ensures
            r == self@.is_null(name@),
    {
        let mut i: usize = 0;
        while i < self.null_columns.len()
            invariant
                i <= self.null_columns@.len(),
                forall|j: int|
                    0 <= j < i ==> !text::same_fold((#[trigger] self.null_columns@[j])@, name@),
            decreases self.null_columns@.len() - i,
        {
            if text::eq_fold(self.null_columns[i].as_str(), name) {
                assert(self.null_columns.deep_view()[i as int] == self.null_columns@[i as int]@);
                assert(self@.nulls.contains(self.null_columns@[i as int]@));
                return true;
            }
            i += 1;
        }
        assert(!self@.is_null(name@)) by {
            if self@.is_null(name@) {
                let column = choose|column: Seq<char>| #[trigger]
                    self@.nulls.contains(column) && text::same_fold(column, name@);
                assert(self.null_columns.deep_view().contains(column));
                let j = choose|j: int|
                    0 <= j < self.null_columns.deep_view().len()
                        && self.null_columns.deep_view()[j] == column;
                assert(self.null_columns@[j]@ == column);
            }
        }
        false
    }

    pub fn get(&self, name: &str) -> (r: Option<&[u8]>)
        ensures
            r is Some == self@.get(name@) is Some,
            r matches Some(b) ==> self@.get(name@) == Some(b@),
    {
        match self.column(name) {
            Some(i) => {
                proof {
                    bytes_model(self.values@[i as int].1);
                }
                Some(self.values[i].1.as_slice())
            },
            None => None,
        }
    }

    pub fn set(&mut self, name: &str, value: Vec<u8>)
        ensures
            final(self)@ == old(self)@.with(name@, value@),
    {
        let at = self.column(name);
        proof {
            seqs::filter_to_set(self.null_columns.deep_view(), other_than(name@));
            bytes_model(value);
        }
        self.null_columns = names_without(&self.null_columns, name);
        match at {
            Some(i) => {
                let stored = self.values[i].0.clone();
                self.values.set(i, (stored, value));
            },
            None => {
                self.values.push((text::copy_text(name), value));
            },
        }
        assert(self@ =~= old(self)@.with(name@, value@));
    }

    pub fn set_null(&mut self, name: &str)
        ensures
            final(self)@ == old(self)@.with_null(name@),
    {
        let at = self.column(name);
        let empty: Vec<u8> = Vec::new();
        proof {
            seqs::filter_to_set(self.null_columns.deep_view(), other_than(name@));
            bytes_model(empty);
        }
        let mut kept = names_without(&self.null_columns, name);
        let ghost before = kept.deep_view();
        match at {
            Some(i) => {
                let stored = self.values[i].0.clone();
                kept.push(stored.clone());
                assert(kept.deep_view() =~= before.push(stored@));
                proof {
                    seqs::push_to_set(before, stored@);
                }
                self.values.set(i, (stored, empty));
            },
            None => {
                kept.push(text::copy_text(name));
                assert(kept.deep_view() =~= before.push(name@));
                proof {
                    seqs::push_to_set(before, name@);
                }
                self.values.push((text::copy_text(name), empty));
            },
        }
        self.null_columns = kept;
        assert(self@ =~= old(self)@.with_null(name@));
    }

    pub fn rename_column(&mut self, old_name: &str, new_name: &str)
        ensures
            final(self)@ == old(self)@.renamed(old_name@, new_name@),
    {
        if text::eq_fold(old_name, new_name) {
            return;
        }
        let at = self.column(old_name);
        let was_null = self.is_null(old_name);
        proof {
            seqs::filter_to_set(self.null_columns.deep_view(), other_than(old_name@));
        }
        if let Some(i) = at {
            let value = text::copy_bytes(self.values[i].1.as_slice());
            proof {
                bytes_model(value);
                bytes_model(self.values@[i as int].1);
            }
            self.values.set(i, (text::copy_text(new_name), value));
        }
        let mut kept = names_without(&self.null_columns, old_name);
        let ghost before = kept.deep_view();
        if was_null {
            kept.push(text::copy_text(new_name));
            assert(kept.deep_view() =~= before.push(new_name@));
            proof {
                seqs::push_to_set(before, new_name@);
            }
        }
        self.null_columns = kept;
        assert(self@ =~= old(self)@.renamed(old_name@, new_name@));
    }

    pub fn remove_column(&mut self, name: &str)
        ensures
            final(self)@ == old(self)@.without(name@),
    {
        proof {
            seqs::filter_to_set(self.null_columns.deep_view(), other_than(name@));
        }
        let mut out: Vec<(String, Vec<u8>)> = Vec::new();
        let mut i: usize = 0;
        assert(self.values.deep_view().take(0).filter(cell_other_than(name@)) =~= Seq::empty()) by {
            reveal(Seq::filter);
        }
        while i < self.values.len()
            invariant
                i <= self.values@.len(),
                out.deep_view() == self.values.deep_view().take(i as int).filter(
                    cell_other_than(name@),
                ),
            decreases self.values@.len() - i,
        {
            proof {
                seqs::filter_step(self.values.deep_view(), i as int, cell_other_than(name@));
            }
            let ghost before = out.deep_view();
            if !text::eq_fold(self.values[i].0.as_str(), name) {
                let value = text::copy_bytes(self.values[i].1.as_slice());
                proof {
                    bytes_model(value);
                    bytes_model(self.values@[i as int].1);
                }
                out.push((self.values[i].0.clone(), value));
                assert(out.deep_view() =~= before.push(self.values.deep_view()[i as int]));
            }
            i += 1;
        }
        assert(self.values.deep_view().take(i as int) =~= self.values.deep_view());
        self.values = out;
        self.null_columns = names_without(&self.null_columns, name);
        assert(self@ =~= old(self)@.without(name@));
    }
}

impl Clone for Row {
    fn clone(&self) -> (r: Self)
        ensures
            r@ == self@,
    {
        let r = Row {
            values: copy_cells(&self.values),
            row_id: self.row_id,
            null_columns: copy_names(&self.null_columns),
        };
        assert(r@ =~= self@);
        r
    }
}

impl Default for Row {
    fn default() -> (r: Self)
        ensures
            r@ == RowModel::empty(),
    {
        Row::new()
    }
}

// ---------------------------------------------------------------------------------------------
// Equality
// ---------------------------------------------------------------------------------------------
/// Whether each name of `a` occurs in `b`.
fn names_within(a: &Vec<String>, b: &Vec<String>) -> (r: bool)
    ensures
        r == a.deep_view().to_set().subset_of(b.deep_view().to_set()),
{
    let mut i: usize = 0;
    while i < a.len()
        invariant
            i <= a@.len(),
            forall|j: int| 0 <= j < i ==> b.deep_view().contains((#[trigger] a@[j])@),
        decreases a@.len() - i,
    {
        if !names_contain(b, a[i].as_str()) {
            assert(a.deep_view()[i as int] == a@[i as int]@);
            assert(a.deep_view().to_set().contains(a@[i as int]@));
            return false;
        }
        i += 1;
    }
    assert forall|x: Seq<char>| a.deep_view().to_set().contains(x) implies b.deep_view().to_set().contains(x) by {
        let j = choose|j: int| 0 <= j < a.deep_view().len() && a.deep_view()[j] == x;
        assert(a@[j]@ == x);
    }
    true
}

impl PartialEq for Row {
    fn eq(&self, other: &Self) -> (r: bool) {
        if self.row_id != other.row_id || self.values.len() != other.values.len() {
            assert(self@.values.len() == self.values@.len());
            assert(other@.values.len() == other.values@.len());
            return false;
        }
        let mut i: usize = 0;
        while i < self.values.len()
            invariant
                i <= self.values@.len() == other.values@.len(),
                forall|j: int| 0 <= j < i ==> #[trigger] self@.values[j] == other@.values[j],
            decreases self.values@.len() - i,
        {
            proof {
                bytes_model(self.values@[i as int].1);
                bytes_model(other.values@[i as int].1);
                assert(self@.values[i as int].0 == self.values@[i as int].0@);
                assert(other@.values[i as int].0 == other.values@[i as int].0@);
                assert(self@.values[i as int].1 == self.values@[i as int].1@);
                assert(other@.values[i as int].1 == other.values@[i as int].1@);
            }
            if !text::text_equal(self.values[i].0.as_str(), other.values[i].0.as_str())
                || !text::bytes_equal(self.values[i].1.as_slice(), other.values[i].1.as_slice()) {
                return false;
            }
            i += 1;
        }
        assert(self@.values =~= other@.values);
        let r = names_within(&self.null_columns, &other.null_columns) && names_within(
            &other.null_columns,
            &self.null_columns,
        );
        if r {
            assert(self@.nulls =~= other@.nulls);
        }
        r
    }
}

impl vstd::std_specs::cmp::PartialEqSpecImpl for Row {
    open spec fn obeys_eq_spec() -> bool {
        true
    }

    open spec fn eq_spec(&self, other: &Self) -> bool {
        self@ == other@
    }
}

impl Eq for Row {

}

// ---------------------------------------------------------------------------------------------
// Text rendering
// ---------------------------------------------------------------------------------------------
/// What `String::from_utf8_lossy` makes of bytes.
pub uninterp spec fn lossy_text(bytes: Seq<u8>) -> Seq<char>;

/// `String::from_utf8_lossy`: the text with ill-formed sequences replaced, which is the encoded
/// text itself where the bytes are valid UTF-8.
#[verifier::external_body]
pub(crate) fn utf8_lossy(bytes: &[u8]) -> (r: String)
    ensures
        r@ == lossy_text(bytes@),
        valid_utf8(bytes@) ==> r@ == decode_utf8(bytes@),
{
    String::from_utf8_lossy(bytes).to_string()
}

/// Each column's text; where a name occurs twice the later column counts.
pub open spec fn rendered(row: RowModel, upto: int) -> Map<Seq<char>, Seq<char>>
    decreases upto,
{
    if upto <= 0 {
        Map::empty()
    } else {
        let cell = row.values[upto - 1];
        rendered(row, upto - 1).insert(
            cell.0,
            if row.is_null(cell.0) {
                "NULL"@
            } else {
                lossy_text(cell.1)
            },
        )
    }
}

impl Row {
    /// The columns by name as text, NULL columns as the word `NULL`.
    pub fn to_string_map(&self) -> (r: StringHashMap<String>)
        ensures
            r@.map_values(|value: String| value@) == rendered(self@, self@.values.len() as int),
    {
        let mut out: StringHashMap<String> = StringHashMap::new();
        let mut i: usize = 0;
        assert(out@.map_values(|value: String| value@) =~= rendered(self@, 0));
        while i < self.values.len()
            invariant
                i <= self.values@.len(),
                out@.map_values(|value: String| value@) == rendered(self@, i as int),
            decreases self.values@.len() - i,
        {
            let name = self.values[i].0.clone();
            let value = if self.is_null(name.as_str()) {
                text::copy_text("NULL")
            } else {
                utf8_lossy(self.values[i].1.as_slice())
            };
            proof {
                bytes_model(self.values@[i as int].1);
            }
            let ghost before = out@;
            let ghost shown = value;
            out.insert(name, value);
            i += 1;
            assert(out@.map_values(|value: String| value@) =~= before.map_values(
                |value: String| value@,
            ).insert(name@, shown@));
        }
        out
    }
}

// ---------------------------------------------------------------------------------------------
// Encoding
// ---------------------------------------------------------------------------------------------
/// The cells one after the other, each name and each value behind its length.
pub open spec fn encoded_cells(values: Seq<(Seq<char>, Seq<u8>)>) -> Seq<u8>
    decreases values.len(),
{
    if values.len() == 0 {
        Seq::empty()
    } else {
        codec::framed(encode_utf8(values[0].0)) + codec::framed(values[0].1) + encoded_cells(
            values.subrange(1, values.len() as int),
        )
    }
}

/// Names one after the other, each behind its length.
pub open spec fn encoded_names(names: Seq<Seq<char>>) -> Seq<u8>
    decreases names.len(),
{
    if names.len() == 0 {
        Seq::empty()
    } else {
        codec::framed(encode_utf8(names[0])) + encoded_names(
            names.subrange(1, names.len() as int),
        )
    }
}

/// A row's bytes: its cells behind their number, then the names of its NULL columns behind theirs.
pub open spec fn encoded_row(values: Seq<(Seq<char>, Seq<u8>)>, nulls: Seq<Seq<char>>) -> Seq<u8> {
    codec::le(values.len(), 8) + encoded_cells(values) + codec::le(nulls.len(), 8) + encoded_names(
        nulls,
    )
}

/// The bytes of a row: the names of its NULL columns are listed in order.
pub open spec fn encoded(r: RowModel) -> Seq<u8> {
    encoded_row(r.values, assoc::listed(r.nulls))
}

/// `count` cells read from a position on, and where they end.
pub open spec fn read_cells(b: Seq<u8>, at: int, count: nat) -> Option<
    (Seq<(Seq<char>, Seq<u8>)>, int),
>
    decreases count,
{
    if count == 0 {
        Some((Seq::empty(), at))
    } else {
        match codec::unframed(b, at) {
            None => None,
            Some((name, mid)) => if !valid_utf8(name) {
                None
            } else {
                match codec::unframed(b, mid) {
                    None => None,
                    Some((value, next)) => match read_cells(b, next, (count - 1) as nat) {
                        None => None,
                        Some((rest, end)) => Some((seq![(decode_utf8(name), value)] + rest, end)),
                    },
                }
            },
        }
    }
}

pub open spec fn read_names(b: Seq<u8>, at: int, count: nat) -> Option<(Seq<Seq<char>>, int)>
    decreases count,
{
    if count == 0 {
        Some((Seq::empty(), at))
    } else {
        match codec::unframed(b, at) {
            None => None,
            Some((name, next)) => if !valid_utf8(name) {
                None
            } else {
                match read_names(b, next, (count - 1) as nat) {
                    None => None,
                    Some((rest, end)) => Some((seq![decode_utf8(name)] + rest, end)),
                }
            },
        }
    }
}

pub open spec fn read_count(b: Seq<u8>, at: int) -> Option<nat> {
    if at < 0 || at + 8 > b.len() {
        None
    } else {
        Some(codec::from_le(b.subrange(at, at + 8)))
    }
}

/// The row that bytes encode; what stands behind it is ignored.
pub open spec fn decoded_row(b: Seq<u8>) -> Option<RowModel> {
    match read_count(b, 0) {
        None => None,
        Some(cells) => match read_cells(b, 8, cells) {
            None => None,
            Some((values, mid)) => match read_count(b, mid) {
                None => None,
                Some(count) => match read_names(b, mid + 8, count) {
                    None => None,
                    Some((names, end)) => Some(
                        RowModel { values: values, nulls: names.to_set(), row_id: 0 },
                    ),
                },
            },
        },
    }
}

pub open spec fn cells_fit(values: Seq<(Seq<char>, Seq<u8>)>) -> bool {
    forall|i: int|
        0 <= i < values.len() ==> encode_utf8((#[trigger] values[i]).0).len() < codec::pow256(8)
            && values[i].1.len() < codec::pow256(8)
}

pub open spec fn names_fit(names: Seq<Seq<char>>) -> bool {
    forall|i: int|
        0 <= i < names.len() ==> encode_utf8(#[trigger] names[i]).len() < codec::pow256(8)
}

proof fn read_encoded_cells(before: Seq<u8>, values: Seq<(Seq<char>, Seq<u8>)>, after: Seq<u8>)
    requires
        cells_fit(values),
    ensures
        read_cells(before + encoded_cells(values) + after, before.len() as int, values.len())
            == Some((values, (before.len() + encoded_cells(values).len()) as int)),
    decreases values.len(),
{
    let b = before + encoded_cells(values) + after;
    if values.len() > 0 {
        let name = encode_utf8(values[0].0);
        let value = values[0].1;
        let rest = values.subrange(1, values.len() as int);
        let tail = codec::framed(value) + encoded_cells(rest) + after;
        assert(b =~= before + codec::framed(name) + tail);
        codec::unframed_framed(before, name, tail);
        let before2 = before + codec::framed(name);
        assert(b =~= before2 + codec::framed(value) + (encoded_cells(rest) + after));
        codec::unframed_framed(before2, value, encoded_cells(rest) + after);
        let before3 = before2 + codec::framed(value);
        assert(b =~= before3 + encoded_cells(rest) + after);
        assert(cells_fit(rest)) by {
            assert forall|i: int| 0 <= i < rest.len() implies encode_utf8(
                (#[trigger] rest[i]).0,
            ).len() < codec::pow256(8) && rest[i].1.len() < codec::pow256(8) by {
                assert(rest[i] == values[i + 1]);
            }
        }
        read_encoded_cells(before3, rest, after);
        vstd::utf8::encode_utf8_valid_utf8(values[0].0);
        vstd::utf8::encode_utf8_decode_utf8(values[0].0);
        assert(seq![(values[0].0, value)] + rest =~= values);
    } else {
        assert(values =~= Seq::empty());
    }
}

proof fn read_encoded_names(before: Seq<u8>, names: Seq<Seq<char>>, after: Seq<u8>)
    requires
        names_fit(names),
    ensures
        read_names(before + encoded_names(names) + after, before.len() as int, names.len()) == Some(
            (names, (before.len() + encoded_names(names).len()) as int),
        ),
    decreases names.len(),
{
    let b = before + encoded_names(names) + after;
    if names.len() > 0 {
        let name = encode_utf8(names[0]);
        let rest = names.subrange(1, names.len() as int);
        let tail = encoded_names(rest) + after;
        assert(b =~= before + codec::framed(name) + tail);
        codec::unframed_framed(before, name, tail);
        let before2 = before + codec::framed(name);
        assert(b =~= before2 + encoded_names(rest) + after);
        assert(names_fit(rest)) by {
            assert forall|i: int| 0 <= i < rest.len() implies encode_utf8(#[trigger] rest[i]).len()
                < codec::pow256(8) by {
                assert(rest[i] == names[i + 1]);
            }
        }
        read_encoded_names(before2, rest, after);
        vstd::utf8::encode_utf8_valid_utf8(names[0]);
        vstd::utf8::encode_utf8_decode_utf8(names[0]);
        assert(seq![names[0]] + rest =~= names);
    } else {
        assert(names =~= Seq::empty());
    }
}

/// Reading back the bytes of a row gives the row, whatever stands behind them.
pub proof fn decode_encode(
    values: Seq<(Seq<char>, Seq<u8>)>,
    nulls: Seq<Seq<char>>,
    after: Seq<u8>,
)
    requires
        cells_fit(values),
        names_fit(nulls),
        values.len() < codec::pow256(8),
        nulls.len() < codec::pow256(8),
    ensures
        decoded_row(encoded_row(values, nulls) + after) == Some(
            RowModel { values: values, nulls: nulls.to_set(), row_id: 0 },
        ),
{
    let b = encoded_row(values, nulls) + after;
    let head = codec::le(values.len(), 8);
    codec::le_len(values.len(), 8);
    codec::from_le_le(values.len(), 8);
    codec::le_len(nulls.len(), 8);
    codec::from_le_le(nulls.len(), 8);
    assert(b.subrange(0, 8) =~= head);
    let rest = codec::le(nulls.len(), 8) + encoded_names(nulls) + after;
    assert(b =~= head + encoded_cells(values) + rest);
    read_encoded_cells(head, values, rest);
    let mid = head + encoded_cells(values);
    assert(b.subrange(mid.len() as int, (mid.len() + 8) as int) =~= codec::le(nulls.len(), 8));
    let before = mid + codec::le(nulls.len(), 8);
    assert(b =~= before + encoded_names(nulls) + after);
    read_encoded_names(before, nulls, after);
}

/// The longest byte string that fits in memory is far from filling an eight-byte length.
proof fn usize_fits(n: usize)
    ensures
        n < codec::pow256(8),
{
    codec::pow256_values();
}

impl Row {
    /// The row's bytes.
    pub fn encode(&self) -> (r: Vec<u8>)
        ensures
            r@ == encoded(self@),
            decoded_row(r@) == Some(RowModel { row_id: 0, ..self@ }),
    {
        let ghost values = self@.values;
        let null_names = assoc::listed_names(&self.null_columns);
        let ghost nulls = null_names.deep_view();
        proof {
            assoc::listed_means(self.null_columns.deep_view());
        }
        let mut out: Vec<u8> = Vec::new();
        codec::put_le(&mut out, self.values.len() as u64, 8);
        let ghost head = codec::le(values.len(), 8);
        assert(out@ =~= head);
        let mut i: usize = 0;
        assert(values.subrange(0, values.len() as int) =~= values);
        while i < self.values.len()
            invariant
                i <= self.values@.len(),
                values == self@.values,
                out@ + encoded_cells(values.subrange(i as int, values.len() as int)) == head
                    + encoded_cells(values),
                forall|j: int|
                    0 <= j < i ==> encode_utf8((#[trigger] values[j]).0).len() < codec::pow256(8)
                        && values[j].1.len() < codec::pow256(8),
            decreases self.values@.len() - i,
        {
            let ghost before = out@;
            let ghost rest = values.subrange(i as int, values.len() as int);
            let name = self.values[i].0.as_str().as_bytes();
            let value = self.values[i].1.as_slice();
            proof {
                bytes_model(self.values@[i as int].1);
                usize_fits(name.len());
                usize_fits(value.len());
                assert(rest[0] == values[i as int]);
                assert(rest.subrange(1, rest.len() as int) =~= values.subrange(
                    i + 1,
                    values.len() as int,
                ));
            }
            codec::put_framed(&mut out, name);
            codec::put_framed(&mut out, value);
            i += 1;
            assert(out@ + encoded_cells(values.subrange(i as int, values.len() as int)) =~= before
                + encoded_cells(rest));
        }
        assert(values.subrange(i as int, values.len() as int) =~= Seq::empty());
        assert(out@ =~= head + encoded_cells(values));
        codec::put_le(&mut out, null_names.len() as u64, 8);
        let ghost base = head + encoded_cells(values) + codec::le(nulls.len(), 8);
        let mut k: usize = 0;
        assert(nulls.subrange(0, nulls.len() as int) =~= nulls);
        assert(out@ =~= base);
        while k < null_names.len()
            invariant
                k <= null_names@.len(),
                nulls == null_names.deep_view(),
                out@ + encoded_names(nulls.subrange(k as int, nulls.len() as int)) == base
                    + encoded_names(nulls),
                forall|j: int|
                    0 <= j < k ==> encode_utf8(#[trigger] nulls[j]).len() < codec::pow256(8),
            decreases null_names@.len() - k,
        {
            let ghost before = out@;
            let ghost rest = nulls.subrange(k as int, nulls.len() as int);
            let name = null_names[k].as_str().as_bytes();
            proof {
                usize_fits(name.len());
                assert(rest[0] == nulls[k as int]);
                assert(rest.subrange(1, rest.len() as int) =~= nulls.subrange(
                    k + 1,
                    nulls.len() as int,
                ));
            }
            codec::put_framed(&mut out, name);
            k += 1;
            assert(out@ + encoded_names(nulls.subrange(k as int, nulls.len() as int)) =~= before
                + encoded_names(rest));
        }
        assert(nulls.subrange(k as int, nulls.len() as int) =~= Seq::empty());
        assert(out@ =~= encoded_row(values, nulls));
        proof {
            usize_fits(self.values.len());
            usize_fits(null_names.len());
            decode_encode(values, nulls, Seq::empty());
            assert(encoded_row(values, nulls) + Seq::<u8>::empty() =~= encoded_row(values, nulls));
            assert(self@.nulls == nulls.to_set());
        }
        out
    }

    /// The row at the start of some bytes.
    pub fn decode(data: &[u8]) -> (r: Option<Self>)
        ensures
            r is Some == decoded_row(data@) is Some,
            r matches Some(row) ==> decoded_row(data@) == Some(row@),
    {
        if data.len() < 8 {
            return None;
        }
        let cells = codec::get_le(data, 0, 8);
        let mut at: usize = 8;
        let mut left: u64 = cells;
        let mut values: Vec<(String, Vec<u8>)> = Vec::new();
        let ghost whole = read_cells(data@, 8, cells as nat);
        while left > 0
            invariant
                at <= data@.len(),
                whole == read_cells(data@, 8, cells as nat),
                read_count(data@, 0) == Some(cells as nat),
                whole == (match read_cells(data@, at as int, left as nat) {
                    Some((rest, end)) => Some((values.deep_view() + rest, end)),
                    None => None,
                }),
            decreases left,
        {
            let (name, mid) = match codec::get_framed(data, at) {
                Some(x) => x,
                None => {
                    return None;
                },
            };
            let named = match text::utf8_text(name.as_slice()) {
                Ok(x) => text::copy_text(x),
                Err(_) => {
                    return None;
                },
            };
            let (value, next) = match codec::get_framed(data, mid) {
                Some(x) => x,
                None => {
                    return None;
                },
            };
            let ghost before = values.deep_view();
            let ghost cell = (named@, value@);
            proof {
                bytes_model(value);
            }
            values.push((named, value));
            assert(values.deep_view() =~= before.push(cell));
            proof {
                if let Some((rest, end)) = read_cells(data@, next as int, (left - 1) as nat) {
                    assert(before + (seq![cell] + rest) =~= before.push(cell) + rest);
                }
            }
            at = next;
            left -= 1;
        }
        assert(values.deep_view() + Seq::<(Seq<char>, Seq<u8>)>::empty() =~= values.deep_view());
        if data.len() - at < 8 {
            return None;
        }
        let count = codec::get_le(data, at, 8);
        let ghost mid = at as int;
        at += 8;
        let mut more: u64 = count;
        let mut names: Vec<String> = Vec::new();
        let ghost all = read_names(data@, mid + 8, count as nat);
        while more > 0
            invariant
                at <= data@.len(),
                all == read_names(data@, mid + 8, count as nat),
                all == (match read_names(data@, at as int, more as nat) {
                    Some((rest, end)) => Some((names.deep_view() + rest, end)),
                    None => None,
                }),
                read_count(data@, 0) == Some(cells as nat),
                read_cells(data@, 8, cells as nat) == Some((values.deep_view(), mid)),
                read_count(data@, mid) == Some(count as nat),
            decreases more,
        {
            let (name, next) = match codec::get_framed(data, at) {
                Some(x) => x,
                None => {
                    return None;
                },
            };
            let named = match text::utf8_text(name.as_slice()) {
                Ok(x) => text::copy_text(x),
                Err(_) => {
                    return None;
                },
            };
            let ghost before = names.deep_view();
            let ghost entry = named@;
            names.push(named);
            assert(names.deep_view() =~= before.push(entry));
            proof {
                if let Some((rest, end)) = read_names(data@, next as int, (more - 1) as nat) {
                    assert(before + (seq![entry] + rest) =~= before.push(entry) + rest);
                }
            }
            at = next;
            more -= 1;
        }
        assert(names.deep_view() + Seq::<Seq<char>>::empty() =~= names.deep_view());
        let row = Row { values: values, row_id: 0, null_columns: names };
        Some(row)
    }
}

// ---------------------------------------------------------------------------------------------
// Laws
// ---------------------------------------------------------------------------------------------
/// What was set is what is read, without NULL, and every other column stays as it was.
pub proof fn set_then_get(row: RowModel, name: Seq<char>, value: Seq<u8>, other: Seq<char>)
    ensures
        row.with(name, value).get(name) == Some(value),
        !row.with(name, value).is_null(name),
        !text::same_fold(name, other) ==> row.with(name, value).get(other) == row.get(other),
        !text::same_fold(name, other) ==> row.with(name, value).is_null(other) == row.is_null(
            other,
        ),
{
    let after = row.with(name, value);
    column_update(row.values, name, value, name, 0);
    column_update(row.values, name, value, other, 0);
    if !text::same_fold(name, other) && row.is_null(other) {
        let column = choose|column: Seq<char>| #[trigger]
            row.nulls.contains(column) && text::same_fold(column, other);
        assert(after.nulls.contains(column));
    }
}

/// Setting a column to NULL makes it NULL and leaves the other columns as they were.
pub proof fn set_null_then_is_null(row: RowModel, name: Seq<char>, other: Seq<char>)
    ensures
        row.with_null(name).is_null(name),
        row.with_null(name).contains(name),
        !text::same_fold(name, other) ==> row.with_null(name).get(other) == row.get(other),
        !text::same_fold(name, other) ==> row.with_null(name).is_null(other) == row.is_null(other),
{
    let after = row.with_null(name);
    column_update(row.values, name, Seq::empty(), name, 0);
    column_update(row.values, name, Seq::empty(), other, 0);
    let stored = match row.column(name) {
        Some(i) => row.values[i].0,
        None => name,
    };
    column_found(row.values, name, 0);
    assert(after.nulls.contains(stored));
    assert(text::same_fold(stored, name));
    if !text::same_fold(name, other) {
        if row.is_null(other) {
            let column = choose|column: Seq<char>| #[trigger]
                row.nulls.contains(column) && text::same_fold(column, other);
            assert(after.nulls.contains(column));
        }
        if after.is_null(other) {
            let column = choose|column: Seq<char>| #[trigger]
                after.nulls.contains(column) && text::same_fold(column, other);
            assert(row.nulls.contains(column));
        }
    }
}

pub proof fn column_found(values: Seq<(Seq<char>, Seq<u8>)>, name: Seq<char>, from: int)
    requires
        0 <= from,
    ensures
        column_from(values, name, from) matches Some(i) ==> from <= i < values.len()
            && text::same_fold(values[i].0, name),
        column_from(values, name, from) is None ==> forall|i: int|
            from <= i < values.len() ==> !text::same_fold((#[trigger] values[i]).0, name),
    decreases values.len() - from,
{
    if from < values.len() && !text::same_fold(values[from].0, name) {
        column_found(values, name, from + 1);
    }
}

proof fn column_update(
    values: Seq<(Seq<char>, Seq<u8>)>,
    name: Seq<char>,
    value: Seq<u8>,
    other: Seq<char>,
    from: int,
)
    requires
        0 <= from,
        from <= values.len(),
    ensures
        ({
            let after = match column_from(values, name, from) {
                Some(i) => values.update(i, (values[i].0, value)),
                None => values.push((name, value)),
            };
            &&& text::same_fold(name, other) ==> (column_from(after, other, from) matches Some(j)
                && after[j].1 == value)
            &&& !text::same_fold(name, other) ==> column_from(after, other, from) == column_from(
                values,
                other,
                from,
            ) && (column_from(after, other, from) matches Some(j) ==> after[j].1 == values[j].1)
        }),
    decreases values.len() - from,
{
    column_found(values, name, from);
    column_found(values, other, from);
    if from < values.len() && !text::same_fold(values[from].0, name) {
        column_update(values, name, value, other, from + 1);
    } else if from < values.len() {
        let after = values.update(from, (values[from].0, value));
        same_tail(values, after, other, from + 1);
    } else {
        let after = values.push((name, value));
        assert(after[from].0 == name);
        assert(column_from(after, other, from + 1) is None);
    }
}

proof fn same_tail(
    a: Seq<(Seq<char>, Seq<u8>)>,
    b: Seq<(Seq<char>, Seq<u8>)>,
    name: Seq<char>,
    from: int,
)
    requires
        0 <= from,
        a.len() == b.len(),
        forall|i: int| from <= i < a.len() ==> a[i] == b[i],
    ensures
        column_from(a, name, from) == column_from(b, name, from),
        column_from(a, name, from) matches Some(j) ==> a[j] == b[j],
    decreases a.len() - from,
{
    if from < a.len() {
        same_tail(a, b, name, from + 1);
    }
}

} // verus!
