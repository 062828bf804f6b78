//! What rows keep through the operations on them, and which rows a predicate picks.
use crate::order;
use crate::order::Sense;
use crate::predicate;
use crate::predicate::{ContextModel, PredicateModel};
use crate::row;
use crate::row::RowModel;
use crate::schema::{ColumnModel, MomentModel, SchemaModel};
use crate::sqltext;
use crate::text;
use crate::values;
use vstd::prelude::*;

verus! {

/// Whether two rows say the same under a name.
pub open spec fn agree(a: RowModel, b: RowModel, name: Seq<char>) -> bool {
    a.get(name) == b.get(name) && a.is_null(name) == b.is_null(name)
}

/// Whether a row says what another says under every name that the other has.
pub open spec fn carries(a: RowModel, b: RowModel) -> bool {
    forall|name: Seq<char>| #[trigger] a.contains(name) ==> agree(a, b, name)
}

/// Whether two rows have the same values and the same NULLs.
pub open spec fn same_cells(a: RowModel, b: RowModel) -> bool {
    a.values == b.values && a.nulls == b.nulls
}

/// Whether every NULL of a row is that of a column which it has.
pub open spec fn tidy(r: RowModel) -> bool {
    forall|name: Seq<char>| #[trigger] r.nulls.contains(name) ==> r.contains(name)
}

/// Whether a row has every column of a table.
pub open spec fn complete(r: RowModel, s: SchemaModel) -> bool {
    forall|i: int| 0 <= i < s.columns.len() ==> r.contains((#[trigger] s.columns[i]).name)
}

// ---------------------------------------------------------------------------------------------
// Finding columns
// ---------------------------------------------------------------------------------------------
/// The first of the columns of a name is the one that is found.
pub proof fn column_is(values: Seq<(Seq<char>, Seq<u8>)>, name: Seq<char>, from: int, i: int)
    requires
        0 <= from <= i < values.len(),
        text::same_fold(values[i].0, name),
        forall|j: int| from <= j < i ==> !text::same_fold((#[trigger] values[j]).0, name),
    ensures
        row::column_from(values, name, from) == Some(i),
    decreases i - from,
{
    if from < i {
        column_is(values, name, from + 1, i);
    }
}

proof fn first_found(values: Seq<(Seq<char>, Seq<u8>)>, name: Seq<char>, from: int)
    requires
        0 <= from,
    ensures
        row::column_from(values, name, from) matches Some(i) ==> from <= i < values.len()
            && text::same_fold(values[i].0, name) && forall|j: int|
            from <= j < i ==> !text::same_fold((#[trigger] values[j]).0, name),
    decreases values.len() - from,
{
    if from < values.len() && !text::same_fold(values[from].0, name) {
        first_found(values, name, from + 1);
    }
}

/// Names that agree up to case find the same column.
pub proof fn case_does_not_matter(r: RowModel, a: Seq<char>, b: Seq<char>)
    requires
        text::same_fold(a, b),
    ensures
        r.contains(a) == r.contains(b),
        r.get(a) == r.get(b),
        r.is_null(a) == r.is_null(b),
{
    same_column(r.values, a, b, 0);
    if r.is_null(a) {
        let c = choose|c: Seq<char>| #[trigger] r.nulls.contains(c) && text::same_fold(c, a);
        assert(r.nulls.contains(c) && text::same_fold(c, b));
    }
    if r.is_null(b) {
        let c = choose|c: Seq<char>| #[trigger] r.nulls.contains(c) && text::same_fold(c, b);
        assert(r.nulls.contains(c) && text::same_fold(c, a));
    }
}

proof fn same_column(values: Seq<(Seq<char>, Seq<u8>)>, a: Seq<char>, b: Seq<char>, from: int)
    requires
        text::same_fold(a, b),
        0 <= from,
    ensures
        row::column_from(values, a, from) == row::column_from(values, b, from),
    decreases values.len() - from,
{
    if from < values.len() {
        same_column(values, a, b, from + 1);
    }
}

proof fn column_stays(
    values: Seq<(Seq<char>, Seq<u8>)>,
    x: (Seq<char>, Seq<u8>),
    name: Seq<char>,
    from: int,
)
    requires
        0 <= from <= values.len(),
    ensures
        row::column_from(values, name, from) is Some ==> row::column_from(
            values.push(x),
            name,
            from,
        ) == row::column_from(values, name, from),
        row::column_from(values, name, from) is None ==> row::column_from(
            values.push(x),
            name,
            from,
        ) == if text::same_fold(x.0, name) {
            Some(values.len() as int)
        } else {
            None
        },
    decreases values.len() - from,
{
    reveal_with_fuel(row::column_from, 2);
    if from < values.len() && !text::same_fold(values[from].0, name) {
        column_stays(values, x, name, from + 1);
    }
}

/// A row that takes up a value under a name that it lacks has it there, and all else as before.
pub proof fn pushed_then_get(r: RowModel, name: Seq<char>, value: Seq<u8>, other: Seq<char>)
    requires
        !r.contains(name),
    ensures
        r.pushed(name, value).get(name) == Some(value),
        !r.pushed(name, value).is_null(name),
        r.pushed_null(name).contains(name),
        r.pushed_null(name).is_null(name),
        r.contains(other) ==> agree(r, r.pushed(name, value), other),
        r.contains(other) ==> agree(r, r.pushed_null(name), other),
        r.contains(other) ==> r.pushed(name, value).contains(other),
        r.contains(other) ==> r.pushed_null(name).contains(other),
{
    row::column_found(r.values, name, 0);
    first_found(r.values, other, 0);
    column_stays(r.values, (name, value), name, 0);
    column_stays(r.values, (name, value), other, 0);
    column_stays(r.values, (name, Seq::empty()), name, 0);
    column_stays(r.values, (name, Seq::empty()), other, 0);
    let a = r.pushed(name, value);
    let b = r.pushed_null(name);
    assert(b.nulls.contains(name) && text::same_fold(name, name));
    if r.contains(other) {
        let i = r.column(other)->0;
        assert(!text::same_fold(r.values[i].0, name));
        assert(!text::same_fold(name, other));
        if r.is_null(other) {
            let c = choose|c: Seq<char>| #[trigger]
                r.nulls.contains(c) && text::same_fold(c, other);
            assert(a.nulls.contains(c));
            assert(b.nulls.contains(c));
        }
        if a.is_null(other) {
            let c = choose|c: Seq<char>| #[trigger]
                a.nulls.contains(c) && text::same_fold(c, other);
            assert(r.nulls.contains(c));
        }
        if b.is_null(other) {
            let c = choose|c: Seq<char>| #[trigger]
                b.nulls.contains(c) && text::same_fold(c, other);
            assert(r.nulls.contains(c));
        }
    }
}

/// Renaming a column carries its value, or its NULL, to the new name, and leaves the others.
pub proof fn renamed_then_get(
    r: RowModel,
    old_name: Seq<char>,
    new_name: Seq<char>,
    other: Seq<char>,
)
    requires
        tidy(r),
        r.contains(old_name),
        text::same_fold(old_name, new_name) || !r.contains(new_name),
    ensures
        r.renamed(old_name, new_name).get(new_name) == r.get(old_name),
        r.renamed(old_name, new_name).is_null(new_name) == r.is_null(old_name),
        !text::same_fold(other, old_name) && !text::same_fold(other, new_name) ==> agree(
            r,
            r.renamed(old_name, new_name),
            other,
        ),
        r.renamed(old_name, new_name).row_id == r.row_id,
        r.renamed(old_name, new_name).values.len() == r.values.len(),
{
    let after = r.renamed(old_name, new_name);
    if text::same_fold(old_name, new_name) {
        case_does_not_matter(r, old_name, new_name);
    } else {
        first_found(r.values, old_name, 0);
        row::column_found(r.values, new_name, 0);
        let i = r.column(old_name)->0;
        assert(after.values == r.values.update(i, (new_name, r.values[i].1)));
        assert(text::same_fold(new_name, new_name));
        column_is(after.values, new_name, 0, i);
        if r.is_null(old_name) {
            assert(after.nulls.contains(new_name));
        }
        if after.is_null(new_name) && !r.is_null(old_name) {
            let c = choose|c: Seq<char>| #[trigger]
                after.nulls.contains(c) && text::same_fold(c, new_name);
            assert(r.nulls.contains(c));
            assert(r.contains(c));
            case_does_not_matter(r, c, new_name);
        }
        if !text::same_fold(other, old_name) && !text::same_fold(other, new_name) {
            first_found(r.values, other, 0);
            row::column_found(r.values, other, 0);
            first_found(after.values, other, 0);
            row::column_found(after.values, other, 0);
            assert(!text::same_fold(new_name, other));
            assert(!text::same_fold(r.values[i].0, other));
            if r.contains(other) {
                let k = r.column(other)->0;
                assert forall|j: int| 0 <= j < k implies !text::same_fold(
                    (#[trigger] after.values[j]).0,
                    other,
                ) by {
                    assert(!text::same_fold(r.values[j].0, other));
                }
                column_is(after.values, other, 0, k);
            } else if after.contains(other) {
                let k = after.column(other)->0;
                assert(!text::same_fold(r.values[k].0, other));
            }
            if r.is_null(other) {
                let c = choose|c: Seq<char>| #[trigger]
                    r.nulls.contains(c) && text::same_fold(c, other);
                assert(!text::same_fold(c, old_name));
                assert(after.nulls.contains(c));
            }
            if after.is_null(other) {
                let c = choose|c: Seq<char>| #[trigger]
                    after.nulls.contains(c) && text::same_fold(c, other);
                assert(r.nulls.contains(c));
            }
        }
    }
}

proof fn column_without(values: Seq<(Seq<char>, Seq<u8>)>, name: Seq<char>, other: Seq<char>)
    requires
        !text::same_fold(name, other),
    ensures
        ({
            let rest = values.filter(row::cell_other_than(name));
            match (row::column_from(values, other, 0), row::column_from(rest, other, 0)) {
                (Some(i), Some(j)) => values[i].1 == rest[j].1,
                (None, None) => true,
                _ => false,
            }
        }),
    decreases values.len(),
{
    reveal(Seq::filter);
    let p = row::cell_other_than(name);
    if values.len() > 0 {
        let front = values.drop_last();
        let x = values.last();
        assert(values =~= front.push(x));
        column_without(front, name, other);
        column_stays(front, x, other, 0);
        first_found(front, other, 0);
        first_found(front.filter(p), other, 0);
        if p(x) {
            assert(values.filter(p) =~= front.filter(p).push(x));
            column_stays(front.filter(p), x, other, 0);
        } else {
            assert(values.filter(p) =~= front.filter(p));
        }
    }
}

/// A row without a column has nothing under its name, and all else as before.
pub proof fn removed_then_get(r: RowModel, name: Seq<char>, other: Seq<char>)
    ensures
        !r.without(name).contains(name),
        !r.without(name).is_null(name),
        !text::same_fold(name, other) ==> agree(r, r.without(name), other),
        r.without(name).row_id == r.row_id,
{
    let after = r.without(name);
    row::column_found(after.values, name, 0);
    if after.contains(name) {
        let i = after.column(name)->0;
        r.values.lemma_filter_pred(row::cell_other_than(name), i);
    }
    if after.is_null(name) {
        let c = choose|c: Seq<char>| #[trigger]
            after.nulls.contains(c) && text::same_fold(c, name);
        assert(row::other_than(name)(c));
    }
    if !text::same_fold(name, other) {
        column_without(r.values, name, other);
        if r.is_null(other) {
            let c = choose|c: Seq<char>| #[trigger]
                r.nulls.contains(c) && text::same_fold(c, other);
            assert(after.nulls.contains(c));
        }
        if after.is_null(other) {
            let c = choose|c: Seq<char>| #[trigger]
                after.nulls.contains(c) && text::same_fold(c, other);
            assert(r.nulls.contains(c));
        }
    }
}

// ---------------------------------------------------------------------------------------------
// Completing rows
// ---------------------------------------------------------------------------------------------
proof fn filled_column_carries(
    r: RowModel,
    c: ColumnModel,
    auto: Option<Seq<char>>,
    m: MomentModel,
)
    requires
        values::filled_column(r, c, auto, m) is Ok,
    ensures
        carries(r, values::filled_column(r, c, auto, m)->Ok_0),
        forall|name: Seq<char>| #[trigger] r.contains(name)
            ==> values::filled_column(r, c, auto, m)->Ok_0.contains(name),
        r.contains(c.name) ==> values::filled_column(r, c, auto, m)->Ok_0 == r,
        values::filled_column(r, c, auto, m)->Ok_0.row_id == r.row_id,
        values::filled_column(r, c, auto, m)->Ok_0.contains(c.name) || auto == Some(c.name),
{
    let next = values::filled_column(r, c, auto, m)->Ok_0;
    if !r.contains(c.name) && auto != Some(c.name) {
        assert(next == r.pushed_null(c.name) || exists|v: Seq<u8>| next == #[trigger] r.pushed(
            c.name,
            v,
        ));
        if next == r.pushed_null(c.name) {
            pushed_then_get(r, c.name, Seq::empty(), c.name);
            assert forall|name: Seq<char>| #[trigger] r.contains(name) implies agree(r, next, name)
                && next.contains(name) by {
                pushed_then_get(r, c.name, Seq::empty(), name);
            }
        } else {
            let v = choose|v: Seq<u8>| next == #[trigger] r.pushed(c.name, v);
            pushed_then_get(r, c.name, v, c.name);
            assert forall|name: Seq<char>| #[trigger] r.contains(name) implies agree(r, next, name)
                && next.contains(name) by {
                pushed_then_get(r, c.name, v, name);
            }
        }
    }
}

proof fn filled_carries(
    r: RowModel,
    columns: Seq<ColumnModel>,
    auto: Option<Seq<char>>,
    m: MomentModel,
    at: int,
)
    requires
        0 <= at <= columns.len(),
        values::filled_from(r, columns, auto, m, at) is Ok,
    ensures
        carries(r, values::filled_from(r, columns, auto, m, at)->Ok_0),
        forall|name: Seq<char>| #[trigger] r.contains(name)
            ==> values::filled_from(r, columns, auto, m, at)->Ok_0.contains(name),
        values::filled_from(r, columns, auto, m, at)->Ok_0.row_id == r.row_id,
        (forall|i: int| at <= i < columns.len() ==> r.contains((#[trigger] columns[i]).name))
            ==> values::filled_from(r, columns, auto, m, at)->Ok_0 == r,
        forall|i: int|
            at <= i < columns.len() ==> values::filled_from(r, columns, auto, m, at)->Ok_0.contains(
                (#[trigger] columns[i]).name,
            ) || auto == Some(columns[i].name),
    decreases columns.len() - at,
{
    if at < columns.len() {
        let next = values::filled_column(r, columns[at], auto, m)->Ok_0;
        filled_column_carries(r, columns[at], auto, m);
        filled_carries(next, columns, auto, m, at + 1);
        let full = values::filled_from(r, columns, auto, m, at)->Ok_0;
        assert forall|name: Seq<char>| #[trigger] r.contains(name) implies agree(r, full, name)
            && full.contains(name) by {
            assert(next.contains(name));
        }
        if forall|i: int| at <= i < columns.len() ==> r.contains((#[trigger] columns[i]).name) {
            assert(r.contains(columns[at].name));
            assert forall|i: int| at + 1 <= i < columns.len() implies next.contains(
                (#[trigger] columns[i]).name,
            ) by {
                assert(r.contains(columns[i].name));
            }
        }
        assert forall|i: int| at <= i < columns.len() implies full.contains(
            (#[trigger] columns[i]).name,
        ) || auto == Some(columns[i].name) by {
            if i == at && next.contains(columns[at].name) {
                assert(full.contains(columns[at].name));
            }
        }
    }
}

/// A row as its table stores it says what it said, has every column of the table but one that the
/// table numbers, and is the same row where it had them before.
pub proof fn a_stored_row_carries_its_values(r: RowModel, s: SchemaModel, m: MomentModel)
    requires
        values::materialized(r, s, m) is Ok,
    ensures
        carries(r, values::materialized(r, s, m)->Ok_0),
        forall|name: Seq<char>| #[trigger] r.contains(name)
            ==> values::materialized(r, s, m)->Ok_0.contains(name),
        values::materialized(r, s, m)->Ok_0.row_id == r.row_id,
        complete(r, s) ==> values::materialized(r, s, m)->Ok_0 == r,
        forall|i: int|
            0 <= i < s.columns.len() ==> values::materialized(r, s, m)->Ok_0.contains(
                (#[trigger] s.columns[i]).name,
            ) || sqltext::auto_increment(s) == Some(s.columns[i].name),
{
    filled_carries(r, s.columns, sqltext::auto_increment(s), m, 0);
}

proof fn filled_gives_default(
    r: RowModel,
    columns: Seq<ColumnModel>,
    auto: Option<Seq<char>>,
    m: MomentModel,
    at: int,
    k: int,
)
    requires
        0 <= at <= k < columns.len(),
        values::filled_from(r, columns, auto, m, at) is Ok,
        !r.contains(columns[k].name),
        auto != Some(columns[k].name),
        forall|i: int|
            0 <= i < columns.len() && i != k ==> !text::same_fold(
                (#[trigger] columns[i]).name,
                columns[k].name,
            ),
    ensures
        ({
            let full = values::filled_from(r, columns, auto, m, at)->Ok_0;
            let c = columns[k];
            &&& full.contains(c.name)
            &&& c.default is None ==> c.nullable && full.is_null(c.name)
            &&& c.default matches Some(d) ==> if text::same_fold(d, "NULL"@) {
                full.is_null(c.name)
            } else {
                &&& !full.is_null(c.name)
                &&& sqltext::timestamp_bytes(d, m) is None ==> full.get(c.name) == Some(
                    text::bytes_of(d),
                )
                &&& sqltext::timestamp_bytes(d, m) matches Some(b) ==> full.get(c.name) == Some(b)
            }
        }),
    decreases k - at,
{
    let c = columns[k];
    let next = values::filled_column(r, columns[at], auto, m)->Ok_0;
    filled_carries(next, columns, auto, m, at + 1);
    let full = values::filled_from(r, columns, auto, m, at)->Ok_0;
    if at < k {
        if next != r {
            row::column_found(r.values, c.name, 0);
            if next.contains(c.name) {
                row::column_found(next.values, c.name, 0);
                let i = next.column(c.name)->0;
                assert(next.values.len() == r.values.len() + 1);
                if i < r.values.len() {
                    assert(next.values[i] == r.values[i]);
                } else {
                    assert(next.values[i].0 == columns[at].name);
                }
                assert(false);
            }
        }
        filled_gives_default(next, columns, auto, m, at + 1, k);
    } else {
        pushed_then_get(r, c.name, Seq::empty(), c.name);
        match c.default {
            Some(d) => {
                pushed_then_get(r, c.name, text::bytes_of(d), c.name);
                match sqltext::timestamp_bytes(d, m) {
                    Some(b) => pushed_then_get(r, c.name, b, c.name),
                    None => {},
                }
            },
            None => {},
        }
        assert(next.contains(c.name));
        assert(agree(next, full, c.name));
    }
}

/// A column that a row lacks is stored with its default, or as NULL where it has none. (The
/// column that the table numbers is another matter, and so are columns whose names agree up to
/// case.)
pub proof fn a_missing_column_takes_its_default(
    r: RowModel,
    s: SchemaModel,
    m: MomentModel,
    k: int,
)
    requires
        values::materialized(r, s, m) is Ok,
        0 <= k < s.columns.len(),
        !r.contains(s.columns[k].name),
        sqltext::auto_increment(s) != Some(s.columns[k].name),
        forall|i: int|
            0 <= i < s.columns.len() && i != k ==> !text::same_fold(
                (#[trigger] s.columns[i]).name,
                s.columns[k].name,
            ),
    ensures
        ({
            let full = values::materialized(r, s, m)->Ok_0;
            let c = s.columns[k];
            &&& full.contains(c.name)
            &&& c.default is None ==> c.nullable && full.is_null(c.name)
            &&& c.default matches Some(d) ==> if text::same_fold(d, "NULL"@) {
                full.is_null(c.name)
            } else {
                &&& !full.is_null(c.name)
                &&& sqltext::timestamp_bytes(d, m) is None ==> full.get(c.name) == Some(
                    text::bytes_of(d),
                )
                &&& sqltext::timestamp_bytes(d, m) matches Some(b) ==> full.get(c.name) == Some(b)
            }
        }),
{
    filled_gives_default(r, s.columns, sqltext::auto_increment(s), m, 0, k);
}

proof fn null_refused(
    r: RowModel,
    columns: Seq<ColumnModel>,
    auto: Option<Seq<char>>,
    m: MomentModel,
    at: int,
    k: int,
)
    requires
        0 <= at <= k < columns.len(),
        r.contains(columns[k].name),
        r.is_null(columns[k].name),
        !columns[k].nullable,
    ensures
        values::filled_from(r, columns, auto, m, at) is Err,
    decreases k - at,
{
    if at < k && values::filled_column(r, columns[at], auto, m) is Ok {
        filled_column_carries(r, columns[at], auto, m);
        let next = values::filled_column(r, columns[at], auto, m)->Ok_0;
        assert(next.contains(columns[k].name) && agree(r, next, columns[k].name));
        null_refused(next, columns, auto, m, at + 1, k);
    }
}

/// A NULL in a column that takes none is refused, and so is a value of a column that the table
/// does not have.
pub proof fn unfit_rows_are_refused(r: RowModel, s: SchemaModel, m: MomentModel, k: int, i: int)
    ensures
        0 <= k < s.columns.len() && r.contains(s.columns[k].name) && r.is_null(s.columns[k].name)
            && !s.columns[k].nullable ==> values::materialized(r, s, m) is Err,
        0 <= i < r.values.len() && (forall|j: int|
            0 <= j < s.columns.len() ==> (#[trigger] s.columns[j]).name != r.values[i].0)
            ==> values::materialized(r, s, m) is Err,
{
    if 0 <= k < s.columns.len() && r.contains(s.columns[k].name) && r.is_null(s.columns[k].name)
        && !s.columns[k].nullable {
        null_refused(r, s.columns, sqltext::auto_increment(s), m, 0, k);
    }
    if 0 <= i < r.values.len() && (forall|j: int|
        0 <= j < s.columns.len() ==> (#[trigger] s.columns[j]).name != r.values[i].0) {
        no_such_column(s.columns, r.values[i].0, 0);
        stray_found(r.values, s.columns, 0, i);
    }
}

proof fn no_such_column(columns: Seq<ColumnModel>, name: Seq<char>, from: int)
    requires
        0 <= from,
        forall|j: int| 0 <= j < columns.len() ==> (#[trigger] columns[j]).name != name,
    ensures
        crate::schema::column_at(columns, name, from) is None,
    decreases columns.len() - from,
{
    if from < columns.len() {
        no_such_column(columns, name, from + 1);
    }
}

proof fn stray_found(
    list: Seq<(Seq<char>, Seq<u8>)>,
    columns: Seq<ColumnModel>,
    at: int,
    i: int,
)
    requires
        0 <= at <= i < list.len(),
        !crate::schema::has_column(columns, list[i].0),
    ensures
        values::stray_from(list, columns, at) is Some,
    decreases i - at,
{
    if at < i {
        stray_found(list, columns, at + 1, i);
    }
}

// ---------------------------------------------------------------------------------------------
// Predicates
// ---------------------------------------------------------------------------------------------
/// A predicate reads the columns that it names and nothing else of a row.
pub proof fn a_predicate_reads_its_columns(
    p: PredicateModel,
    a: RowModel,
    b: RowModel,
    cx: ContextModel,
)
    requires
        forall|i: int|
            0 <= i < predicate::predicate_columns(p).len() ==> agree(
                a,
                b,
                #[trigger] predicate::predicate_columns(p)[i],
            ),
    ensures
        predicate::satisfies(p, a, cx) == predicate::satisfies(p, b, cx),
    decreases p,
{
    match p {
        PredicateModel::And(x, y) => {
            let m = predicate::predicate_columns(*x);
            let n = predicate::predicate_columns(*y);
            assert forall|i: int| 0 <= i < m.len() implies agree(a, b, #[trigger] m[i]) by {
                assert(predicate::predicate_columns(p)[i] == m[i]);
            }
            assert forall|i: int| 0 <= i < n.len() implies agree(a, b, #[trigger] n[i]) by {
                assert(predicate::predicate_columns(p)[m.len() + i] == n[i]);
            }
            a_predicate_reads_its_columns(*x, a, b, cx);
            a_predicate_reads_its_columns(*y, a, b, cx);
        },
        PredicateModel::Or(x, y) => {
            let m = predicate::predicate_columns(*x);
            let n = predicate::predicate_columns(*y);
            assert forall|i: int| 0 <= i < m.len() implies agree(a, b, #[trigger] m[i]) by {
                assert(predicate::predicate_columns(p)[i] == m[i]);
            }
            assert forall|i: int| 0 <= i < n.len() implies agree(a, b, #[trigger] n[i]) by {
                assert(predicate::predicate_columns(p)[m.len() + i] == n[i]);
            }
            a_predicate_reads_its_columns(*x, a, b, cx);
            a_predicate_reads_its_columns(*y, a, b, cx);
        },
        PredicateModel::Never => {},
        _ => {
            assert(agree(a, b, predicate::predicate_columns(p)[0]));
        },
    }
}

/// Rows with the same cells pass the same filters.
pub proof fn filters_read_cells(
    filter: Option<PredicateModel>,
    a: RowModel,
    b: RowModel,
    cx: ContextModel,
)
    requires
        same_cells(a, b),
    ensures
        predicate::passes(filter, a, cx) == predicate::passes(filter, b, cx),
{
    assert forall|name: Seq<char>| #[trigger] agree(a, b, name) by {
        if a.is_null(name) {
            let c = choose|c: Seq<char>| #[trigger] a.nulls.contains(c) && text::same_fold(c, name);
            assert(b.nulls.contains(c));
        }
        if b.is_null(name) {
            let c = choose|c: Seq<char>| #[trigger] b.nulls.contains(c) && text::same_fold(c, name);
            assert(a.nulls.contains(c));
        }
    }
    match filter {
        Some(p) => a_predicate_reads_its_columns(p, a, b, cx),
        None => {},
    }
}

/// Byte strings are equal in order only where they are the same, and turning a comparison round
/// turns its outcome round.
pub proof fn bytes_are_ordered(a: Seq<u8>, b: Seq<u8>)
    ensures
        order::bytes_sense(a, b) == Sense::Equal <==> a == b,
        order::bytes_sense(a, b) == Sense::Less <==> order::bytes_sense(b, a) == Sense::Greater,
    decreases a.len(),
{
    if a.len() == 0 && b.len() == 0 {
        assert(a =~= b);
    }
    if a.len() > 0 && b.len() > 0 && a[0] == b[0] {
        let x = a.subrange(1, a.len() as int);
        let y = b.subrange(1, b.len() as int);
        bytes_are_ordered(x, y);
        if a == b {
            assert(x == y);
        }
        if x == y {
            assert(a =~= seq![a[0]] + x);
            assert(b =~= seq![b[0]] + y);
        }
    }
}

/// The order of byte strings is decided by the first byte in which they differ; a string comes
/// before those that begin with it.
pub proof fn the_first_difference_decides(a: Seq<u8>, b: Seq<u8>, k: int)
    requires
        0 <= k <= a.len(),
        k <= b.len(),
        forall|i: int| 0 <= i < k ==> a[i] == b[i],
    ensures
        k < a.len() && k < b.len() && a[k] < b[k] ==> order::bytes_sense(a, b) == Sense::Less,
        k < a.len() && k < b.len() && a[k] > b[k] ==> order::bytes_sense(a, b) == Sense::Greater,
        k == a.len() && k < b.len() ==> order::bytes_sense(a, b) == Sense::Less,
        k < a.len() && k == b.len() ==> order::bytes_sense(a, b) == Sense::Greater,
    decreases k,
{
    if k > 0 {
        assert(a[0] == b[0]);
        let x = a.subrange(1, a.len() as int);
        let y = b.subrange(1, b.len() as int);
        assert forall|i: int| 0 <= i < k - 1 implies x[i] == y[i] by {
            assert(a[i + 1] == b[i + 1]);
        }
        the_first_difference_decides(x, y, k - 1);
    }
}

/// Of a value that is neither missing nor NULL, it is equal to an expected one or it is not; it is
/// less, or greater or equal; it is greater, or less or equal. The value NULL, and a missing one,
/// is none of these.
pub proof fn comparisons_exclude_each_other(
    c: Seq<char>,
    v: Seq<u8>,
    r: RowModel,
    cx: ContextModel,
)
    ensures
        ({
            let eq = predicate::satisfies(PredicateModel::Eq(c, v), r, cx);
            let ne = predicate::satisfies(PredicateModel::NotEq(c, v), r, cx);
            let lt = predicate::satisfies(PredicateModel::Less(c, v), r, cx);
            let le = predicate::satisfies(PredicateModel::LessOrEq(c, v), r, cx);
            let gt = predicate::satisfies(PredicateModel::Greater(c, v), r, cx);
            let ge = predicate::satisfies(PredicateModel::GreaterOrEq(c, v), r, cx);
            if r.contains(c) && !r.is_null(c) {
                eq != ne && lt != ge && gt != le && !(lt && gt)
            } else {
                !eq && !ne && !lt && !le && !gt && !ge
            }
        }),
        predicate::satisfies(PredicateModel::Eq(c, v), r, cx) <==> !r.is_null(c) && r.get(c) == Some(
            v,
        ),
{
}

/// Values that both read as numbers compare as these numbers do, and others by their bytes.
pub proof fn comparisons_follow_the_numbers(
    c: Seq<char>,
    v: Seq<u8>,
    r: RowModel,
    cx: ContextModel,
)
    requires
        r.contains(c),
        !r.is_null(c),
    ensures
        ({
            let x = predicate::reading_from(cx.readings, r.get(c)->0, 0);
            let y = predicate::reading_from(cx.readings, v, 0);
            let lt = predicate::satisfies(PredicateModel::Less(c, v), r, cx);
            let gt = predicate::satisfies(PredicateModel::Greater(c, v), r, cx);
            if x is Some && y is Some {
                lt == (x->0 < y->0) && gt == (x->0 > y->0)
            } else {
                lt == (order::bytes_sense(r.get(c)->0, v) == Sense::Less) && gt == (
                order::bytes_sense(r.get(c)->0, v) == Sense::Greater)
            }
        }),
{
}

/// BETWEEN takes both of its ends in; IN holds where one of its values is equal; AND, OR, IS NULL
/// and IS NOT NULL are what they say.
pub proof fn predicates_are_built_from_comparisons(
    c: Seq<char>,
    low: Seq<u8>,
    high: Seq<u8>,
    list: Seq<Seq<u8>>,
    p: PredicateModel,
    q: PredicateModel,
    r: RowModel,
    cx: ContextModel,
)
    ensures
        predicate::satisfies(PredicateModel::Between(c, low, high), r, cx) <==> predicate::satisfies(
            PredicateModel::GreaterOrEq(c, low),
            r,
            cx,
        ) && predicate::satisfies(PredicateModel::LessOrEq(c, high), r, cx),
        predicate::satisfies(PredicateModel::In(c, list), r, cx) <==> exists|i: int|
            0 <= i < list.len() && predicate::satisfies(
                PredicateModel::Eq(c, #[trigger] list[i]),
                r,
                cx,
            ),
        predicate::satisfies(PredicateModel::And(Box::new(p), Box::new(q)), r, cx) <==> (
        predicate::satisfies(p, r, cx) && predicate::satisfies(q, r, cx)),
        predicate::satisfies(PredicateModel::Or(Box::new(p), Box::new(q)), r, cx) <==> (
        predicate::satisfies(p, r, cx) || predicate::satisfies(q, r, cx)),
        predicate::satisfies(PredicateModel::IsNull(c), r, cx) <==> r.contains(c) && r.is_null(c),
        predicate::satisfies(PredicateModel::IsNotNull(c), r, cx) <==> r.contains(c) && !r.is_null(
            c,
        ),
        !predicate::satisfies(PredicateModel::Never, r, cx),
        predicate::passes(None, r, cx),
        predicate::passes(Some(p), r, cx) == predicate::satisfies(p, r, cx),
{
    if predicate::satisfies(PredicateModel::In(c, list), r, cx) {
        let v = r.present(c)->0;
        let i = choose|i: int| 0 <= i < list.len() && list[i] == v;
        assert(predicate::satisfies(PredicateModel::Eq(c, list[i]), r, cx));
    }
    if exists|i: int|
        0 <= i < list.len() && predicate::satisfies(
            PredicateModel::Eq(c, #[trigger] list[i]),
            r,
            cx,
        ) {
        let i = choose|i: int|
            0 <= i < list.len() && predicate::satisfies(
                PredicateModel::Eq(c, #[trigger] list[i]),
                r,
                cx,
            );
        assert(list.contains(list[i]));
    }
}

// ---------------------------------------------------------------------------------------------
// LIKE
// ---------------------------------------------------------------------------------------------
/// Whether a byte has a meaning of its own in a LIKE pattern: `%`, `_` or a backslash.
pub open spec fn special(b: u8) -> bool {
    b == 0x25 || b == 0x5f || b == 0x5c
}

/// A pattern without special bytes matches the value that it spells, and no other.
pub proof fn a_plain_pattern_matches_itself(value: Seq<u8>, pattern: Seq<u8>)
    requires
        forall|i: int| 0 <= i < pattern.len() ==> !special(#[trigger] pattern[i]),
    ensures
        predicate::like(value, pattern, 0, 0) <==> value == pattern,
{
    plain_from(value, pattern, 0);
    if predicate::like(value, pattern, 0, 0) {
        assert(value =~= pattern);
    }
}

proof fn plain_from(value: Seq<u8>, pattern: Seq<u8>, at: int)
    requires
        0 <= at <= pattern.len(),
        forall|i: int| 0 <= i < pattern.len() ==> !special(#[trigger] pattern[i]),
    ensures
        predicate::like(value, pattern, at, at) <==> value.len() == pattern.len() && forall|i: int|
            at <= i < pattern.len() ==> value[i] == pattern[i],
    decreases pattern.len() - at,
{
    if at < pattern.len() {
        assert(!special(pattern[at]));
        plain_from(value, pattern, at + 1);
    }
}

/// `%` stands for any bytes: the rest of the pattern matches the value from some place on.
pub proof fn percent_stands_for_any_bytes(value: Seq<u8>, pattern: Seq<u8>, v: int, p: int)
    requires
        0 <= v <= value.len(),
        0 <= p < pattern.len(),
        pattern[p] == 0x25,
    ensures
        predicate::like(value, pattern, v, p) <==> exists|k: int|
            v <= k <= value.len() && #[trigger] predicate::like(value, pattern, k, p + 1),
    decreases value.len() - v,
{
    if v < value.len() {
        percent_stands_for_any_bytes(value, pattern, v + 1, p);
        if exists|k: int|
            v <= k <= value.len() && #[trigger] predicate::like(value, pattern, k, p + 1) {
            let k = choose|k: int|
                v <= k <= value.len() && #[trigger] predicate::like(value, pattern, k, p + 1);
            if k > v {
                assert(v + 1 <= k && predicate::like(value, pattern, k, p + 1));
            }
        }
    }
    if predicate::like(value, pattern, v, p + 1) {
        assert(v <= v <= value.len() && predicate::like(value, pattern, v, p + 1));
    }
    if v < value.len() && predicate::like(value, pattern, v + 1, p) {
        let k = choose|k: int|
            v + 1 <= k <= value.len() && #[trigger] predicate::like(value, pattern, k, p + 1);
        assert(v <= k <= value.len() && predicate::like(value, pattern, k, p + 1));
    }
}

/// `_` stands for one byte, and a byte behind a backslash for itself.
pub proof fn one_byte_patterns(value: Seq<u8>, pattern: Seq<u8>, v: int, p: int)
    requires
        0 <= v <= value.len(),
        0 <= p < pattern.len(),
    ensures
        pattern[p] == 0x5f ==> (predicate::like(value, pattern, v, p) <==> v < value.len()
            && predicate::like(value, pattern, v + 1, p + 1)),
        pattern[p] == 0x5c && p + 1 < pattern.len() ==> (predicate::like(value, pattern, v, p)
            <==> v < value.len() && value[v] == pattern[p + 1] && predicate::like(
            value,
            pattern,
            v + 1,
            p + 2,
        )),
        !special(pattern[p]) ==> (predicate::like(value, pattern, v, p) <==> v < value.len()
            && value[v] == pattern[p] && predicate::like(value, pattern, v + 1, p + 1)),
        predicate::like(value, pattern, v, pattern.len() as int) <==> v == value.len(),
{
}

} // verus!
