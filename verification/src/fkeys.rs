//! Foreign keys: their definitions, and the keys that rows have under them.
use crate::error;
use crate::row::{Row, RowModel};
use crate::schema::{SchemaModel, TableSchema};
use crate::search;
use crate::sqltext;
use crate::text;
use vstd::prelude::*;

verus! {

#[derive(Debug, Clone, Copy, PartialEq, Eq, Structural)]
pub enum ReferentialAction {
    Restrict,
    Cascade,
    SetNull,
}

#[derive(Debug)]
pub struct ForeignKeySpec {
    pub name: String,
    pub child_table: String,
    pub child_columns: Vec<String>,
    pub parent_table: String,
    pub parent_columns: Vec<String>,
    pub on_delete: ReferentialAction,
    pub on_update: ReferentialAction,
}

pub struct ForeignKeyModel {
    pub name: Seq<char>,
    pub child_table: Seq<char>,
    pub child_columns: Seq<Seq<char>>,
    pub parent_table: Seq<char>,
    pub parent_columns: Seq<Seq<char>>,
    pub on_delete: ReferentialAction,
    pub on_update: ReferentialAction,
}

impl View for ForeignKeySpec {
    type V = ForeignKeyModel;

    open spec fn view(&self) -> ForeignKeyModel {
        ForeignKeyModel {
            name: self.name@,
            child_table: self.child_table@,
            child_columns: self.child_columns.deep_view(),
            parent_table: self.parent_table@,
            parent_columns: self.parent_columns.deep_view(),
            on_delete: self.on_delete,
            on_update: self.on_update,
        }
    }
}

impl DeepView for ForeignKeySpec {
    type V = ForeignKeyModel;

    open spec fn deep_view(&self) -> ForeignKeyModel {
        self@
    }
}

/// What a clause such as ON DELETE asks for.
pub open spec fn action_of(definition: Seq<char>, clause: Seq<char>) -> ReferentialAction {
    match search::find(definition, clause) {
        None => ReferentialAction::Restrict,
        Some(p) => {
            let rest = text::trim_start_by(definition.skip(p + clause.len()), text::white_fn());
            if search::starts_with(rest, "CASCADE"@) {
                ReferentialAction::Cascade
            } else if search::starts_with(rest, "SET NULL"@) {
                ReferentialAction::SetNull
            } else {
                ReferentialAction::Restrict
            }
        },
    }
}

pub fn parse_referential_action(definition: &[char], clause: &str) -> (r: ReferentialAction)
    ensures
        r == action_of(definition@, clause@),
{
    let needle = text::chars_of(clause);
    proof {
        search::find_from_means(definition@, needle@, 0);
    }
    match search::find_chars(definition, &needle, 0) {
        None => ReferentialAction::Restrict,
        Some(p) => {
            let total: usize = definition.len();
            assert(p + needle@.len() <= total);
            let from = text::skip_white(definition, p + needle.len(), total);
            let rest = text::copy_chars(definition, from, total);
            assert(definition@.subrange(p + needle@.len(), total as int) =~= definition@.skip(
                p + needle@.len(),
            ));
            let cascade = text::chars_of("CASCADE");
            let set_null = text::chars_of("SET NULL");
            if search::chars_start_with(&rest, &cascade) {
                ReferentialAction::Cascade
            } else if search::chars_start_with(&rest, &set_null) {
                ReferentialAction::SetNull
            } else {
                ReferentialAction::Restrict
            }
        },
    }
}

/// The column names in a list, without their backticks.
pub open spec fn listed_columns(s: Seq<char>) -> Seq<Seq<char>> {
    sqltext::definitions(s).map_values(|c: Seq<char>| text::trim_mark(text::trim(c), '`'))
}

fn list_columns(c: &[char], from: usize, to: usize) -> (r: Vec<String>)
    requires
        from <= to <= c@.len(),
    ensures
        r.deep_view() == listed_columns(c@.subrange(from as int, to as int)),
{
    let part = text::copy_chars(c, from, to);
    let defs = sqltext::split_schema_definitions(&part);
    let mut out: Vec<String> = Vec::new();
    let mut i: usize = 0;
    while i < defs.len()
        invariant
            i <= defs@.len(),
            out@.len() == i,
            forall|j: int|
                0 <= j < i ==> (#[trigger] out@[j])@ == text::trim_mark(
                    text::trim(defs@[j]@),
                    '`',
                ),
        decreases defs@.len() - i,
    {
        let d = text::chars_of(defs[i].as_str());
        let t = text::trim_chars(&d);
        let b = text::trim_char(&t, '`');
        out.push(text::text_of(&b));
        i += 1;
    }
    assert(out.deep_view() =~= listed_columns(part@));
    out
}

/// The name of a foreign key: the given one, or the table's name with a suffix.
pub open spec fn key_name(table: Seq<char>, before: Seq<char>) -> Seq<char> {
    let w = search::words(before);
    if search::starts_with(text::trim(text::upper(before)), "CONSTRAINT"@) && w.len() > 1 {
        text::trim_mark(w[1], '`')
    } else {
        table + "_ibfk_1"@
    }
}

fn foreign_key_name(table: &str, before: &[char]) -> (r: String)
    ensures
        r@ == key_name(table@, before@),
{
    let u = text::upper_chars(before);
    let t = text::trim_chars(&u);
    let mark = text::chars_of("CONSTRAINT");
    let w = search::words_of(before);
    if search::chars_start_with(&t, &mark) && w.len() > 1 {
        assert(w.deep_view()[1] == w@[1]@);
        let second = text::chars_of(w[1].as_str());
        let b = text::trim_char(&second, '`');
        text::text_of(&b)
    } else {
        error::cat2(table, "_ibfk_1")
    }
}

/// The last part of a dotted name, without its backticks.
pub open spec fn last_part(s: Seq<char>) -> Seq<char> {
    text::trim_mark(search::split_char(text::trim(s), '.').last(), '`')
}

proof fn split_nonempty(s: Seq<char>, p: spec_fn(char) -> bool, from: int, at: int)
    ensures
        search::split_by(s, p, from, at).len() > 0,
    decreases s.len() - at,
{
    if 0 <= at < s.len() {
        if p(s[at]) {
            split_nonempty(s, p, at + 1, at + 1);
        } else {
            split_nonempty(s, p, from, at + 1);
        }
    }
}

fn table_part(c: &[char], from: usize, to: usize) -> (r: String)
    requires
        from <= to <= c@.len(),
    ensures
        r@ == last_part(c@.subrange(from as int, to as int)),
{
    let (a, b) = text::trim_bounds(c, from, to);
    let s = text::slice_text(c, a, b);
    let parts = search::split_on(s.as_str(), '.');
    proof {
        split_nonempty(s@, text::char_fn('.'), 0, 0);
        assert(parts.deep_view().last() == parts@[parts@.len() - 1]@);
    }
    let last = text::chars_of(parts[parts.len() - 1].as_str());
    let bare = text::trim_char(&last, '`');
    text::text_of(&bare)
}

/// Where the parts of a foreign-key definition stand.
pub struct KeyPlaces {
    pub foreign: int,
    pub child_open: int,
    pub child_close: int,
    pub parent_start: int,
    pub parent_open: int,
    pub parent_close: int,
}

pub open spec fn places(d: Seq<char>) -> Option<KeyPlaces> {
    let u = text::upper(d);
    match search::find(u, "FOREIGN KEY"@) {
        None => None,
        Some(foreign) => match search::find_char_from(d, '(', foreign) {
            None => None,
            Some(child_open) => match search::find_char_from(d, ')', child_open) {
                None => None,
                Some(child_close) => match search::find(u, "REFERENCES"@) {
                    None => None,
                    Some(references) => match search::find_char_from(d, '(', references + 10) {
                        None => None,
                        Some(parent_open) => match search::find_char_from(d, ')', parent_open) {
                            None => None,
                            Some(parent_close) => Some(
                                KeyPlaces {
                                    foreign: foreign,
                                    child_open: child_open,
                                    child_close: child_close,
                                    parent_start: references + 10,
                                    parent_open: parent_open,
                                    parent_close: parent_close,
                                },
                            ),
                        },
                    },
                },
            },
        },
    }
}

/// The foreign key that a definition of a table states.
pub open spec fn foreign_key_in(table: Seq<char>, d: Seq<char>) -> Option<ForeignKeyModel> {
    match places(d) {
        None => None,
        Some(p) => Some(
            ForeignKeyModel {
                name: key_name(table, d.take(p.foreign)),
                child_table: table,
                child_columns: listed_columns(d.subrange(p.child_open + 1, p.child_close)),
                parent_table: last_part(d.subrange(p.parent_start, p.parent_open)),
                parent_columns: listed_columns(d.subrange(p.parent_open + 1, p.parent_close)),
                on_delete: action_of(text::upper(d), " ON DELETE "@),
                on_update: action_of(text::upper(d), " ON UPDATE "@),
            },
        ),
    }
}

pub fn parse_foreign_key_definition(table: &str, definition: &str) -> (r: Option<ForeignKeySpec>)
    ensures
        r.deep_view() == foreign_key_in(table@, definition@),
{
    let d = text::chars_of(definition);
    let u = text::upper_chars(&d);
    let word = text::chars_of("FOREIGN KEY");
    let reference = text::chars_of("REFERENCES");
    proof {
        reveal_strlit("REFERENCES");
        search::find_from_means(u@, "FOREIGN KEY"@, 0);
        search::find_from_means(u@, "REFERENCES"@, 0);
    }
    let foreign = match search::find_chars(&u, &word, 0) {
        Some(x) => x,
        None => {
            return None;
        },
    };
    let child_open = match search::find_char(&d, '(', foreign) {
        Some(x) => x,
        None => {
            return None;
        },
    };
    let child_close = match search::find_char(&d, ')', child_open) {
        Some(x) => x,
        None => {
            return None;
        },
    };
    let references = match search::find_chars(&u, &reference, 0) {
        Some(x) => x,
        None => {
            return None;
        },
    };
    let total: usize = d.len();
    assert(references + 10 <= total);
    let parent_start: usize = references + 10;
    let parent_open = match search::find_char(&d, '(', parent_start) {
        Some(x) => x,
        None => {
            return None;
        },
    };
    let parent_close = match search::find_char(&d, ')', parent_open) {
        Some(x) => x,
        None => {
            return None;
        },
    };
    let before = text::copy_chars(&d, 0, foreign);
    assert(before@ =~= d@.take(foreign as int));
    Some(
        ForeignKeySpec {
            name: foreign_key_name(table, &before),
            child_table: text::copy_text(table),
            child_columns: list_columns(&d, child_open + 1, child_close),
            parent_table: table_part(&d, parent_start, parent_open),
            parent_columns: list_columns(&d, parent_open + 1, parent_close),
            on_delete: parse_referential_action(&u, " ON DELETE "),
            on_update: parse_referential_action(&u, " ON UPDATE "),
        },
    )
}

pub open spec fn foreign_keys_upto(table: Seq<char>, defs: Seq<Seq<char>>, n: int) -> Seq<
    ForeignKeyModel,
>
    decreases n,
{
    if n <= 0 {
        Seq::empty()
    } else {
        match foreign_key_in(table, defs[n - 1]) {
            Some(key) => foreign_keys_upto(table, defs, n - 1).push(key),
            None => foreign_keys_upto(table, defs, n - 1),
        }
    }
}

/// The foreign keys of a table.
pub open spec fn foreign_keys(table: Seq<char>, s: SchemaModel) -> Seq<ForeignKeyModel> {
    let defs = sqltext::schema_definitions(s);
    foreign_keys_upto(table, defs, defs.len() as int)
}

pub fn table_foreign_keys(table: &str, schema: &TableSchema) -> (r: Vec<ForeignKeySpec>)
    ensures
        r.deep_view() == foreign_keys(table@, schema@),
{
    let defs = sqltext::definitions_of(schema);
    let mut out: Vec<ForeignKeySpec> = Vec::new();
    let mut i: usize = 0;
    assert(out.deep_view() =~= Seq::empty());
    while i < defs.len()
        invariant
            i <= defs@.len(),
            out.deep_view() == foreign_keys_upto(table@, defs.deep_view(), i as int),
        decreases defs@.len() - i,
    {
        assert(defs.deep_view()[i as int] == defs@[i as int]@);
        let ghost before = out.deep_view();
        if let Some(key) = parse_foreign_key_definition(table, defs[i].as_str()) {
            let ghost model = key@;
            out.push(key);
            assert(out.deep_view() =~= before.push(model));
        }
        i += 1;
    }
    out
}

/// Whether one of some definitions states a foreign key of that name.
pub open spec fn names_key(table: Seq<char>, d: Seq<char>, name: Seq<char>) -> bool {
    foreign_key_in(table, d) matches Some(key) && key.name == name
}

pub fn definition_names_key(table: &str, definition: &str, name: &str) -> (r: bool)
    ensures
        r == names_key(table@, definition@, name@),
{
    match parse_foreign_key_definition(table, definition) {
        Some(key) => text::text_equal(key.name.as_str(), name),
        None => false,
    }
}

// ---------------------------------------------------------------------------------------------
// Keys of rows
// ---------------------------------------------------------------------------------------------
pub open spec fn all_present(r: RowModel, columns: Seq<Seq<char>>) -> bool {
    forall|i: int| 0 <= i < columns.len() ==> r.present(#[trigger] columns[i]) is Some
}

/// A row's values in some columns; none where one of them is missing or NULL.
pub open spec fn row_key(r: RowModel, columns: Seq<Seq<char>>) -> Option<Seq<Seq<u8>>> {
    if all_present(r, columns) {
        Some(columns.map_values(|c: Seq<char>| r.present(c)->0))
    } else {
        None
    }
}

pub open spec fn byte_lists(k: Option<Vec<Vec<u8>>>) -> Option<Seq<Seq<u8>>> {
    match k {
        Some(v) => Some(v.deep_view()),
        None => None,
    }
}

pub fn foreign_key_row_key(r: &Row, columns: &Vec<String>) -> (k: Option<Vec<Vec<u8>>>)
    ensures
        byte_lists(k) == row_key(r@, columns.deep_view()),
{
    let ghost names = columns.deep_view();
    let mut out: Vec<Vec<u8>> = Vec::new();
    let mut i: usize = 0;
    while i < columns.len()
        invariant
            i <= columns@.len(),
            names == columns.deep_view(),
            out@.len() == i,
            forall|j: int|
                0 <= j < i ==> r@.present(#[trigger] names[j]) == Some(out@[j]@),
        decreases columns@.len() - i,
    {
        assert(names[i as int] == columns@[i as int]@);
        if r.is_null(columns[i].as_str()) {
            return None;
        }
        match r.get(columns[i].as_str()) {
            None => {
                return None;
            },
            Some(value) => {
                out.push(text::copy_bytes(value));
            },
        }
        i += 1;
    }
    assert forall|j: int| 0 <= j < names.len() implies out.deep_view()[j] == r@.present(
        names[j],
    )->0 by {
        crate::row::bytes_model(out@[j]);
        assert(r@.present(names[j]) == Some(out@[j]@));
    }
    assert(out.deep_view() =~= names.map_values(|c: Seq<char>| r@.present(c)->0));
    Some(out)
}

pub fn same_keys(a: &Option<Vec<Vec<u8>>>, b: &Option<Vec<Vec<u8>>>) -> (r: bool)
    ensures
        r == (byte_lists(*a) == byte_lists(*b)),
{
    match (a, b) {
        (None, None) => true,
        (Some(x), Some(y)) => {
            if x.len() != y.len() {
                assert(x.deep_view().len() != y.deep_view().len());
                return false;
            }
            let mut i: usize = 0;
            while i < x.len()
                invariant
                    i <= x@.len() == y@.len(),
                    *a == Some(*x),
                    *b == Some(*y),
                    forall|j: int| 0 <= j < i ==> x.deep_view()[j] == y.deep_view()[j],
                decreases x@.len() - i,
            {
                proof {
                    crate::row::bytes_model(x@[i as int]);
                    crate::row::bytes_model(y@[i as int]);
                    assert(x.deep_view()[i as int] == x@[i as int]@);
                    assert(y.deep_view()[i as int] == y@[i as int]@);
                }
                if !text::bytes_equal(x[i].as_slice(), y[i].as_slice()) {
                    return false;
                }
                i += 1;
            }
            assert(x.deep_view() =~= y.deep_view());
            true
        },
        _ => false,
    }
}

} // verus!
