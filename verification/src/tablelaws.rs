//! What writing to a table leaves in it.
use crate::assoc;
use crate::database;
use crate::database::DatabaseModel;
use crate::images;
use crate::commands::SetModel;
use crate::predicate;
use crate::predicate::{ContextModel, PredicateModel};
use crate::redo;
use crate::row;
use crate::row::RowModel;
use crate::rowlaws;
use crate::rowlaws::{agree, carries, same_cells};
use crate::rowpages;
use crate::schema::{MomentModel, SchemaModel};
use crate::sqltext;
use crate::table;
use crate::table::TableModel;
use crate::text;
use crate::values;
use vstd::prelude::*;

verus! {

/// Whether every row of a table has all its columns, as rows have that were inserted.
pub open spec fn settled(t: TableModel) -> bool {
    forall|i: int| 0 <= i < t.rows().len() ==> rowlaws::complete(#[trigger] t.rows()[i], t.schema)
}

/// Whether rows that are written to a table are the ones that are read from then on: a table on
/// pages reads its staged rows, as long as it has any.
pub open spec fn reads_what_is_written(t: TableModel, defer: bool) -> bool {
    defer || sqltext::is_memory(t.schema) || t.overlay is None
}

/// Whether rows stand as a table stores them, in their order.
pub open spec fn holds(
    stored: Seq<RowModel>,
    rows: Seq<RowModel>,
    s: SchemaModel,
    m: MomentModel,
) -> bool {
    &&& stored.len() == rows.len()
    &&& forall|i: int|
        0 <= i < rows.len() ==> same_cells(
            #[trigger] stored[i],
            values::materialized(rows[i], s, m)->Ok_0,
        ) && values::materialized(rows[i], s, m) is Ok
}

/// Whether two schemas differ at most in where pages stand.
pub open spec fn same_schema(a: SchemaModel, b: SchemaModel) -> bool {
    b == (SchemaModel { next_page_number: b.next_page_number, generation: b.generation, ..a })
}

proof fn prepared_rows(t: TableModel, rows: Seq<RowModel>, m: MomentModel, full: Seq<RowModel>)
    requires
        images::prepared(rows, t.schema, m) == Ok::<Seq<RowModel>, Seq<char>>(full),
    ensures
        full.len() == rows.len(),
        forall|i: int|
            0 <= i < rows.len() ==> values::materialized(rows[i], t.schema, m) == Ok::<
                RowModel,
                Seq<char>,
            >(#[trigger] full[i]),
{
    assert forall|i: int| 0 <= i < rows.len() implies values::materialized(rows[i], t.schema, m)
        == Ok::<RowModel, Seq<char>>(#[trigger] full[i]) by {
        redo::each_materialized(rows, t.schema, m, 0, Seq::empty(), i);
    }
    if rows.len() > 0 {
        redo::each_materialized(rows, t.schema, m, 0, Seq::empty(), 0);
    }
}

proof fn staged_holds(t: TableModel, rows: Seq<RowModel>, m: MomentModel)
    requires
        table::staged(t, rows, m) is Ok,
    ensures
        holds(table::staged(t, rows, m)->Ok_0.rows(), rows, t.schema, m),
        table::staged(t, rows, m)->Ok_0.schema == t.schema,
{
    let full = images::prepared(rows, t.schema, m)->Ok_0;
    prepared_rows(t, rows, m, full);
    let after = table::staged(t, rows, m)->Ok_0;
    assert(after.rows() == full);
}

/// Rows that a table is rewritten with are those that it holds.
pub proof fn replaced_holds(t: TableModel, rows: Seq<RowModel>, m: MomentModel)
    requires
        table::replaced(t, rows, m) is Ok,
        sqltext::is_memory(t.schema) || t.overlay is None,
    ensures
        holds(table::replaced(t, rows, m)->Ok_0.rows(), rows, t.schema, m),
        same_schema(t.schema, table::replaced(t, rows, m)->Ok_0.schema),
{
    if sqltext::is_memory(t.schema) {
        staged_holds(t, rows, m);
    } else {
        let full = images::prepared(rows, t.schema, m)->Ok_0;
        prepared_rows(t, rows, m, full);
        let parts = rowpages::groups(full)->Ok_0;
        rowpages::no_oversized(rowpages::encodings(full), 0);
        rowpages::groups_flat(full, 0);
        rowpages::laid_out_rows(0, parts);
        assert(rowpages::anonymous(full).subrange(0, full.len() as int) =~= rowpages::anonymous(
            full,
        ));
        let after = table::replaced(t, rows, m)->Ok_0;
        assert(after.rows() == rowpages::anonymous(full));
    }
}

/// Counting anew leaves the rows and the schemas of all tables.
pub proof fn recounting_keeps_tables(db: DatabaseModel, name: Seq<char>)
    ensures
        match (database::table_of(database::all_recounted(db), name), database::table_of(db, name)) {
            (Some(a), Some(b)) => a.rows() == b.rows() && a.schema == b.schema && a.overlay
                == b.overlay && a.pages == b.pages,
            (None, None) => true,
            _ => false,
        },
{
    database::lookup_recounted(db.tables, name, 0);
    assoc::entry_found(db.tables, name, 0);
}

/// Rows that a table's pages are rewritten with are those that it holds.
pub proof fn rows_replaced_holds(
    db: DatabaseModel,
    name: Seq<char>,
    rows: Seq<RowModel>,
    m: MomentModel,
)
    requires
        database::rows_replaced(db, name, rows, m) is Ok,
        database::table_of(db, name) matches Some(t) && (sqltext::is_memory(t.schema)
            || t.overlay is None),
    ensures
        ({
            let t = database::table_of(db, name)->0;
            let after = database::table_of(database::rows_replaced(db, name, rows, m)->Ok_0, name);
            &&& after is Some
            &&& holds((after->0).rows(), rows, t.schema, m)
            &&& same_schema(t.schema, (after->0).schema)
        }),
{
    reveal(database::rows_replaced);
    let t = database::table_of(db, name)->0;
    let next = table::replaced(t, rows, m)->Ok_0;
    replaced_holds(t, rows, m);
    assoc::set_then_lookup(db.tables, name, next, name);
    recounting_keeps_tables(database::with_table(db, name, next), name);
    let after = database::table_of(database::rows_replaced(db, name, rows, m)->Ok_0, name)->0;
    assert(after.rows() == next.rows());
}

/// Rows that are written to a table are those that it holds, in their order, each with all that it
/// said.
pub proof fn written_rows_are_held(
    db: DatabaseModel,
    name: Seq<char>,
    rows: Seq<RowModel>,
    defer: bool,
    m: MomentModel,
)
    requires
        database::rows_written(db, name, rows, defer, m) is Ok,
        database::table_of(db, name) matches Some(t) && reads_what_is_written(t, defer),
    ensures
        ({
            let t = database::table_of(db, name)->0;
            let after = database::table_of(
                database::rows_written(db, name, rows, defer, m)->Ok_0,
                name,
            );
            &&& after is Some
            &&& same_schema(t.schema, (after->0).schema)
            &&& holds((after->0).rows(), rows, t.schema, m)
            &&& forall|i: int|
                0 <= i < rows.len() ==> carries(rows[i], #[trigger] (after->0).rows()[i]) && (
                rowlaws::complete(rows[i], t.schema) ==> same_cells(rows[i], (after->0).rows()[i]))
        }),
{
    reveal(database::rows_written);
    let t = database::table_of(db, name)->0;
    if defer {
        reveal(database::rows_staged);
        staged_holds(t, rows, m);
        assoc::set_then_lookup(db.tables, name, table::staged(t, rows, m)->Ok_0, name);
    } else {
        rows_replaced_holds(db, name, rows, m);
    }
    let after = database::table_of(database::rows_written(db, name, rows, defer, m)->Ok_0, name)->0;
    assert forall|i: int| 0 <= i < rows.len() implies carries(rows[i], #[trigger] after.rows()[i])
        && (rowlaws::complete(rows[i], t.schema) ==> same_cells(rows[i], after.rows()[i])) by {
        let full = values::materialized(rows[i], t.schema, m)->Ok_0;
        assert(same_cells(after.rows()[i], full));
        rowlaws::a_stored_row_carries_its_values(rows[i], t.schema, m);
        carried(rows[i], full, after.rows()[i]);
    }
}

/// What a row carries, a row with the same cells carries too.
pub proof fn carried(a: RowModel, b: RowModel, c: RowModel)
    requires
        carries(a, b),
        same_cells(b, c),
    ensures
        carries(a, c),
{
    assert forall|name: Seq<char>| #[trigger] a.contains(name) implies agree(a, c, name) by {
        assert(agree(a, b, name));
        same_cells_agree(b, c, name);
    }
}

/// Rows with the same cells say the same under every name.
pub proof fn same_cells_agree(a: RowModel, b: RowModel, name: Seq<char>)
    requires
        same_cells(a, b),
    ensures
        agree(a, b, name),
        a.contains(name) == b.contains(name),
{
    if a.is_null(name) {
        let c = choose|c: Seq<char>| #[trigger] a.nulls.contains(c) && text::same_fold(c, name);
        assert(b.nulls.contains(c));
    }
    if b.is_null(name) {
        let c = choose|c: Seq<char>| #[trigger] b.nulls.contains(c) && text::same_fold(c, name);
        assert(a.nulls.contains(c));
    }
}

// ---------------------------------------------------------------------------------------------
// DELETE
// ---------------------------------------------------------------------------------------------
/// The rows that do not pass a filter, in their order.
pub open spec fn spared(rows: Seq<RowModel>, filter: Option<PredicateModel>, cx: ContextModel) -> Seq<
    RowModel,
> {
    rows.filter(|r: RowModel| !predicate::passes(filter, r, cx))
}

/// Rows that are spared were there, and do not pass the filter.
pub proof fn spared_spared(rows: Seq<RowModel>, filter: Option<PredicateModel>, cx: ContextModel, i: int)
    requires
        0 <= i < spared(rows, filter, cx).len(),
    ensures
        !predicate::passes(filter, spared(rows, filter, cx)[i], cx),
        rows.contains(spared(rows, filter, cx)[i]),
{
    let p = |r: RowModel| !predicate::passes(filter, r, cx);
    rows.lemma_filter_pred(p, i);
    crate::seqs::filter_holds(rows, p, rows.filter(p)[i]);
    assert(rows.filter(p).contains(rows.filter(p)[i]));
}

/// A DELETE leaves the rows that do not pass its filter, in their order and as they were, and
/// counts the others. No row that it leaves passes the filter.
pub proof fn deletes_take_what_passes(
    db: DatabaseModel,
    name: Seq<char>,
    filter: Option<PredicateModel>,
    defer: bool,
    cx: ContextModel,
)
    requires
        database::rows_deleted(db, name, filter, defer, cx) is Ok,
        database::table_of(db, name) matches Some(t) && settled(t) && reads_what_is_written(
            t,
            defer,
        ) && t.rows().len() <= u64::MAX,
    ensures
        ({
            let t = database::table_of(db, name)->0;
            let (after, count) = database::rows_deleted(db, name, filter, defer, cx)->Ok_0;
            let left = spared(t.rows(), filter, cx);
            &&& database::table_of(after, name) matches Some(u) && u.rows().len() == left.len()
                && forall|i: int|
                0 <= i < left.len() ==> same_cells(left[i], #[trigger] u.rows()[i])
                    && !predicate::passes(filter, u.rows()[i], cx)
            &&& count == t.rows().len() - left.len()
        }),
{
    reveal(database::rows_deleted);
    let t = database::table_of(db, name)->0;
    let left = spared(t.rows(), filter, cx);
    assert(images::kept(t.rows(), filter, cx) == left) by {
        assert(images::kept_fn(filter, cx) =~= (|r: RowModel| !predicate::passes(filter, r, cx)));
    }
    let (after, count) = database::rows_deleted(db, name, filter, defer, cx)->Ok_0;
    t.rows().lemma_filter_len(|r: RowModel| !predicate::passes(filter, r, cx));
    if t.rows().len() == left.len() && filter is Some {
        all_spared(t.rows(), filter, cx);
        assert(left == t.rows());
    } else {
        assert forall|i: int| 0 <= i < left.len() implies rowlaws::complete(
            #[trigger] left[i],
            t.schema,
        ) by {
            spared_spared(t.rows(), filter, cx, i);
            let k = choose|k: int| 0 <= k < t.rows().len() && t.rows()[k] == left[i];
            assert(rowlaws::complete(t.rows()[k], t.schema));
        }
        written_rows_are_held(db, name, left, defer, cx.moment);
    }
    let u = database::table_of(after, name)->0;
    assert forall|i: int| 0 <= i < left.len() implies same_cells(left[i], #[trigger] u.rows()[i])
        && !predicate::passes(filter, u.rows()[i], cx) by {
        spared_spared(t.rows(), filter, cx, i);
        assert(rowlaws::complete(left[i], t.schema)) by {
            let k = choose|k: int| 0 <= k < t.rows().len() && t.rows()[k] == left[i];
            assert(rowlaws::complete(t.rows()[k], t.schema));
        }
        rowlaws::filters_read_cells(filter, left[i], u.rows()[i], cx);
    }
}

/// A DELETE leaves the schema of its table, but for where its pages stand.
pub proof fn deletes_keep_the_schema(
    db: DatabaseModel,
    name: Seq<char>,
    filter: Option<PredicateModel>,
    defer: bool,
    cx: ContextModel,
)
    requires
        database::rows_deleted(db, name, filter, defer, cx) is Ok,
        database::table_of(db, name) matches Some(t) && reads_what_is_written(t, defer),
    ensures
        database::table_of((database::rows_deleted(db, name, filter, defer, cx)->Ok_0).0, name) matches Some(
            u,
        ) && same_schema(database::table_of(db, name)->0.schema, u.schema),
{
    reveal(database::rows_deleted);
    let t = database::table_of(db, name)->0;
    let left = images::kept(t.rows(), filter, cx);
    if !(t.rows().len() == left.len() && filter is Some) {
        written_rows_are_held(db, name, left, defer, cx.moment);
    }
}

proof fn all_spared(rows: Seq<RowModel>, filter: Option<PredicateModel>, cx: ContextModel)
    requires
        spared(rows, filter, cx).len() == rows.len(),
    ensures
        spared(rows, filter, cx) == rows,
    decreases rows.len(),
{
    reveal(Seq::filter);
    let p = |r: RowModel| !predicate::passes(filter, r, cx);
    if rows.len() > 0 {
        let front = rows.drop_last();
        front.lemma_filter_len(p);
        assert(p(rows.last()));
        all_spared(front, filter, cx);
        assert(rows =~= front.push(rows.last()));
    } else {
        assert(rows.filter(p) =~= rows);
    }
}

// ---------------------------------------------------------------------------------------------
// UPDATE
// ---------------------------------------------------------------------------------------------
/// Whether the `k`-th of the assignments is the last to a name.
pub open spec fn last_set(sets: SetModel, name: Seq<char>, k: int) -> bool {
    0 <= k < sets.len() && text::same_fold(sets[k].0, name) && forall|j: int|
        k < j < sets.len() ==> !text::same_fold((#[trigger] sets[j]).0, name)
}

/// A row after assignments holds what was assigned last to each column, and in the others what it
/// held.
pub proof fn assigned_columns_hold_what_was_assigned(
    r: RowModel,
    sets: SetModel,
    at: int,
    name: Seq<char>,
)
    requires
        0 <= at <= sets.len(),
    ensures
        forall|k: int|
            at <= k && #[trigger] last_set(sets, name, k) ==> match sets[k].1 {
                Some(value) => images::set_from(r, sets, at).get(name) == Some(value)
                    && !images::set_from(r, sets, at).is_null(name),
                None => images::set_from(r, sets, at).contains(name) && images::set_from(
                    r,
                    sets,
                    at,
                ).is_null(name),
            },
        (forall|j: int| at <= j < sets.len() ==> !text::same_fold((#[trigger] sets[j]).0, name))
            ==> agree(r, images::set_from(r, sets, at), name),
        images::set_from(r, sets, at).row_id == r.row_id,
    decreases sets.len() - at,
{
    if at < sets.len() {
        let next = match sets[at].1 {
            Some(value) => r.with(sets[at].0, value),
            None => r.with_null(sets[at].0),
        };
        assigned_columns_hold_what_was_assigned(next, sets, at + 1, name);
        match sets[at].1 {
            Some(value) => row::set_then_get(r, sets[at].0, value, name),
            None => row::set_null_then_is_null(r, sets[at].0, name),
        }
        if text::same_fold(sets[at].0, name) {
            rowlaws::case_does_not_matter(next, sets[at].0, name);
            let full = images::set_from(r, sets, at);
            if forall|j: int| at < j < sets.len() ==> !text::same_fold((#[trigger] sets[j]).0, name) {
                assert(agree(next, full, name));
            }
        }
    }
}

proof fn none_differ(before: Seq<RowModel>, after: Seq<RowModel>, n: int)
    requires
        0 <= n <= before.len(),
        before.len() == after.len(),
    ensures
        images::differing(before, after, n) == 0 ==> forall|i: int|
            0 <= i < n ==> #[trigger] before[i] == after[i],
        images::differing(before, after, n) <= n,
    decreases n,
{
    if n > 0 {
        none_differ(before, after, n - 1);
    }
}

/// An UPDATE keeps the number and the order of the rows. Each row that passes the filter says
/// what was assigned last to each column that was assigned, and in its other columns what it said;
/// every other row is as it was. The rows that changed are counted.
pub proof fn updates_assign_to_what_passes(
    db: DatabaseModel,
    name: Seq<char>,
    filter: Option<PredicateModel>,
    sets: SetModel,
    defer: bool,
    cx: ContextModel,
    i: int,
    column: Seq<char>,
)
    requires
        database::rows_updated(db, name, filter, sets, defer, cx) is Ok,
        database::table_of(db, name) matches Some(t) && settled(t) && reads_what_is_written(
            t,
            defer,
        ) && 0 <= i < t.rows().len() <= u64::MAX,
    ensures
        ({
            let t = database::table_of(db, name)->0;
            let r = t.rows()[i];
            let (after, count) = database::rows_updated(db, name, filter, sets, defer, cx)->Ok_0;
            &&& database::table_of(after, name) matches Some(u) && {
                let x = u.rows()[i];
                &&& u.rows().len() == t.rows().len()
                &&& !predicate::passes(filter, r, cx) ==> same_cells(r, x)
                &&& predicate::passes(filter, r, cx) ==> forall|k: int| #[trigger]
                    last_set(sets, column, k) ==> match sets[k].1 {
                        Some(value) => x.get(column) == Some(value) && !x.is_null(column),
                        None => x.contains(column) && x.is_null(column),
                    }
                &&& r.contains(column) && (forall|j: int|
                    0 <= j < sets.len() ==> !text::same_fold((#[trigger] sets[j]).0, column)) ==> agree(
                    r,
                    x,
                    column,
                )
            }
            &&& count <= t.rows().len()
        }),
{
    reveal(database::rows_updated);
    let t = database::table_of(db, name)->0;
    let r = t.rows()[i];
    let image = images::updated(t.rows(), filter, sets, cx);
    let (after, count) = database::rows_updated(db, name, filter, sets, defer, cx)->Ok_0;
    none_differ(t.rows(), image, t.rows().len() as int);
    assert(rowlaws::complete(r, t.schema));
    assigned_columns_hold_what_was_assigned(r, sets, 0, column);
    if images::differing(t.rows(), image, t.rows().len() as int) == 0 {
        assert(t.rows()[i] == image[i]);
    } else {
        written_rows_are_held(db, name, image, defer, cx.moment);
        let u = database::table_of(after, name)->0;
        let x = u.rows()[i];
        assert(carries(image[i], x));
        if image[i].contains(column) {
            assert(agree(image[i], x, column));
        }
        if predicate::passes(filter, r, cx) {
            assert forall|k: int| #[trigger] last_set(sets, column, k) implies match sets[k].1 {
                Some(value) => x.get(column) == Some(value) && !x.is_null(column),
                None => x.contains(column) && x.is_null(column),
            } by {
                assert(image[i] == images::set_from(r, sets, 0));
                assert(image[i].contains(column));
            }
        }
    }
}

// ---------------------------------------------------------------------------------------------
// INSERT
// ---------------------------------------------------------------------------------------------
proof fn numbered_rows(
    rows: Seq<RowModel>,
    column: Seq<char>,
    at: int,
    done: Seq<RowModel>,
    last: u64,
    next: u64,
    i: int,
)
    requires
        0 <= at <= rows.len(),
        done.len() == at,
        0 <= i < rows.len(),
        images::numbered_from(rows, column, at, done, last, next) is Ok,
    ensures
        ({
            let n = images::numbered_from(rows, column, at, done, last, next)->Ok_0;
            &&& n.rows.len() == rows.len()
            &&& i < at ==> n.rows[i] == done[i]
            &&& i >= at && !images::wants_number(rows[i], column) ==> n.rows[i] == rows[i]
            &&& i >= at && images::wants_number(rows[i], column) ==> exists|v: Seq<u8>|
                n.rows[i] == #[trigger] rows[i].with(column, v)
        }),
    decreases rows.len() - at,
{
    if at < rows.len() {
        if images::wants_number(rows[at], column) {
            let v = vstd::utf8::encode_utf8(crate::num::decimal(next as nat));
            let r = rows[at].with(column, v);
            numbered_rows(
                rows,
                column,
                at + 1,
                done.push(r),
                if last == 0 {
                    next
                } else {
                    last
                },
                (next + 1) as u64,
                i,
            );
            if i == at {
                assert(images::numbered_from(rows, column, at, done, last, next)->Ok_0.rows[i]
                    == rows[i].with(column, v));
            }
        } else {
            match rows[at].get(column) {
                None => numbered_rows(rows, column, at + 1, done.push(rows[at]), last, next, i),
                Some(value) => {
                    let n = images::number_in(value)->0;
                    numbered_rows(
                        rows,
                        column,
                        at + 1,
                        done.push(rows[at]),
                        last,
                        images::larger(next, (n as u64).saturating_add(1)),
                        i,
                    );
                },
            }
        }
    }
}

/// An INSERT leaves the rows that were there, exactly and in their order, and puts the new ones
/// behind them, in their order. A new row says what it was given, but in the column that the table
/// numbers, where it may leave that to the table.
pub proof fn inserts_add_behind(
    db: DatabaseModel,
    name: Seq<char>,
    rows: Seq<RowModel>,
    m: MomentModel,
    i: int,
    column: Seq<char>,
)
    requires
        database::rows_inserted(db, name, rows, m) is Ok,
        0 <= i < rows.len(),
        database::table_of(db, name) matches Some(t) && (sqltext::is_memory(t.schema)
            ==> t.overlay is Some),
    ensures
        ({
            let t = database::table_of(db, name)->0;
            let (after, _) = database::rows_inserted(db, name, rows, m)->Ok_0;
            let auto = sqltext::auto_increment(t.schema);
            database::table_of(after, name) matches Some(u) && {
                let x = u.rows()[t.rows().len() + i];
                &&& u.rows().len() == t.rows().len() + rows.len()
                &&& u.rows().take(t.rows().len() as int) == t.rows()
                &&& rows[i].contains(column) && (auto is None || !text::same_fold(auto->0, column) || (
                !rows[i].is_null(column) && rows[i].get(column) != Some(seq![0x30u8]))) ==> agree(
                    rows[i],
                    x,
                    column,
                )
                &&& auto is Some ==> x.contains(auto->0) && !x.is_null(auto->0)
            }
        }),
{
    reveal(database::rows_inserted);
    let t = database::table_of(db, name)->0;
    let next = (table::inserted(t, rows, m)->Ok_0).0;
    assoc::set_then_lookup(db.tables, name, next, name);
    let n = images::numbered(t.schema, t.next_id, rows)->Ok_0;
    let full = images::materialized_all(n.rows, t.schema, m)->Ok_0;
    let auto = sqltext::auto_increment(t.schema);
    let start = match t.next_id {
        Some(x) => x,
        None => 1u64,
    };
    match auto {
        Some(c) => numbered_rows(rows, c, 0, Seq::empty(), 0, start, i),
        None => {},
    }
    redo::each_materialized(n.rows, t.schema, m, 0, Seq::empty(), i);
    rowlaws::a_stored_row_carries_its_values(n.rows[i], t.schema, m);
    if sqltext::is_memory(t.schema) || t.overlay is Some {
        let before = match t.overlay {
            Some(rows) => rows,
            None => Seq::empty(),
        };
        assert(next.rows() == before + full);
        assert(next.rows().take(t.rows().len() as int) =~= t.rows());
    } else {
        redo::inserted_rows_are_read(t, rows, m);
        assert(next.rows().take(t.rows().len() as int) =~= t.rows());
    }
    let x = next.rows()[t.rows().len() + i];
    assert(same_cells(full[i], x));
    same_cells_agree(full[i], x, column);
    let given = n.rows[i];
    match auto {
        Some(c) => {
            if images::wants_number(rows[i], c) {
                let v = choose|v: Seq<u8>| given == #[trigger] rows[i].with(c, v);
                row::set_then_get(rows[i], c, v, column);
                if text::same_fold(c, column) {
                    rowlaws::case_does_not_matter(rows[i], c, column);
                    rowlaws::case_does_not_matter(given, c, column);
                }
                assert(given.contains(c) && !given.is_null(c));
            }
            assert(given.contains(c));
            assert(agree(given, full[i], c));
            same_cells_agree(full[i], x, c);
        },
        None => {},
    }
    if given.contains(column) {
        assert(agree(given, full[i], column));
    }
}

} // verus!
