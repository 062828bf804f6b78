//! What a write leaves to be read, and that what was logged is redone once.
use crate::apply;
use crate::assoc;
use crate::batch;
use crate::commands;
use crate::commands::CommandModel;
use crate::database;
use crate::database::DatabaseModel;
use crate::disk;
use crate::dmlcheck;
use crate::images;
use crate::page::PageModel;
use crate::pairs;
use crate::predicate::ContextModel;
use crate::replay;
use crate::replay::ReplayModel;
use crate::row;
use crate::row::RowModel;
use crate::rowpages;
use crate::schema;
use crate::schema::{ColumnModel, MomentModel, SchemaModel};
use crate::seqs;
use crate::sqltext;
use crate::store;
use crate::store::StoreModel;
use crate::table;
use crate::table::TableModel;
use crate::text;
use crate::validate;
use crate::validate::KeysModel;
use crate::values;
use vstd::prelude::*;

verus! {

// ---------------------------------------------------------------------------------------------
// Rows
// ---------------------------------------------------------------------------------------------
proof fn column_stays(values: Seq<(Seq<char>, Seq<u8>)>, x: (Seq<char>, Seq<u8>), name: Seq<char>, from: int)
    requires
        0 <= from,
        row::column_from(values, name, from) is Some,
    ensures
        row::column_from(values.push(x), name, from) == row::column_from(values, name, from),
    decreases values.len() - from,
{
    if from < values.len() && !text::same_fold(values[from].0, name) {
        column_stays(values, x, name, from + 1);
    }
}

/// Filling in a column keeps the values that a row has.
proof fn filled_column_keeps(r: RowModel, c: ColumnModel, auto: Option<Seq<char>>, m: MomentModel, name: Seq<char>)
    requires
        values::filled_column(r, c, auto, m) is Ok,
        r.present(name) is Some,
    ensures
        values::filled_column(r, c, auto, m)->Ok_0.present(name) == r.present(name),
{
    let next = values::filled_column(r, c, auto, m)->Ok_0;
    row::column_found(r.values, name, 0);
    let i = r.column(name)->0;
    if !r.contains(c.name) {
        row::column_found(r.values, c.name, 0);
        assert(!text::same_fold(r.values[i].0, c.name));
        assert(!text::same_fold(c.name, name));
        if next != r {
            let x = next.values.last();
            assert(next.values =~= r.values.push(x));
            column_stays(r.values, x, name, 0);
            if next.is_null(name) {
                let n = choose|n: Seq<char>| #[trigger]
                    next.nulls.contains(n) && text::same_fold(n, name);
                assert(r.nulls.contains(n));
                assert(r.is_null(name));
            }
        }
    }
}

proof fn filling_keeps(
    r: RowModel,
    columns: Seq<ColumnModel>,
    auto: Option<Seq<char>>,
    m: MomentModel,
    at: int,
    name: Seq<char>,
)
    requires
        0 <= at,
        values::filled_from(r, columns, auto, m, at) is Ok,
        r.present(name) is Some,
    ensures
        values::filled_from(r, columns, auto, m, at)->Ok_0.present(name) == r.present(name),
    decreases columns.len() - at,
{
    if at < columns.len() {
        filled_column_keeps(r, columns[at], auto, m, name);
        filling_keeps(
            values::filled_column(r, columns[at], auto, m)->Ok_0,
            columns,
            auto,
            m,
            at + 1,
            name,
        );
    }
}

/// A row as its table stores it keeps the values that it came with.
pub proof fn stored_rows_keep_their_values(r: RowModel, s: SchemaModel, m: MomentModel, name: Seq<char>)
    requires
        values::materialized(r, s, m) is Ok,
        r.present(name) is Some,
    ensures
        values::materialized(r, s, m)->Ok_0.present(name) == r.present(name),
{
    filling_keeps(r, s.columns, sqltext::auto_increment(s), m, 0, name);
}

proof fn key_from_kept(a: RowModel, b: RowModel, columns: Seq<Seq<char>>, at: int)
    requires
        0 <= at,
        values::key_from(a, columns, at) is Some,
        forall|name: Seq<char>| a.present(name) is Some ==> #[trigger] b.present(name) == a.present(name),
    ensures
        values::key_from(b, columns, at) == values::key_from(a, columns, at),
    decreases columns.len() - at,
{
    if at < columns.len() {
        key_from_kept(a, b, columns, at + 1);
        assert(b.present(columns[at]) == a.present(columns[at]));
    }
}

/// A row that has a key of a table.
pub open spec fn keyed(r: RowModel, s: SchemaModel) -> bool {
    exists|i: int| 0 <= i < schema::keys(s).len() && values::key(r, (#[trigger] schema::keys(s)[i]).columns) is Some
}

/// A row that leaves no number to its table.
pub open spec fn is_numbered(r: RowModel, s: SchemaModel) -> bool {
    sqltext::auto_increment(s) matches Some(c) ==> !images::wants_number(r, c)
}

/// The row as it is read back from a page.
pub open spec fn unnamed(r: RowModel) -> RowModel {
    RowModel { row_id: 0, ..r }
}

/// A row with a key stands in the way of itself once it is stored.
proof fn stored_row_conflicts(r: RowModel, s: SchemaModel, m: MomentModel)
    requires
        keyed(r, s),
        values::materialized(r, s, m) is Ok,
    ensures
        commands::conflict(unnamed(values::materialized(r, s, m)->Ok_0), r, s),
{
    let full = values::materialized(r, s, m)->Ok_0;
    let b = unnamed(full);
    let i = choose|i: int|
        0 <= i < schema::keys(s).len() && values::key(r, (#[trigger] schema::keys(s)[i]).columns) is Some;
    let columns = schema::keys(s)[i].columns;
    assert forall|name: Seq<char>| r.present(name) is Some implies #[trigger] b.present(name) == r.present(name) by {
        stored_rows_keep_their_values(r, s, m, name);
        assert(b.is_null(name) == full.is_null(name));
    }
    key_from_kept(r, b, columns, 0);
    assert(values::key(b, columns) == values::key(r, columns));
    assert(commands::share_key(b, r, schema::keys(s)));
}

// ---------------------------------------------------------------------------------------------
// Tables
// ---------------------------------------------------------------------------------------------
/// Rows as a table stores them: each of them, in their order.
pub proof fn each_materialized(rows: Seq<RowModel>, s: SchemaModel, m: MomentModel, at: int, done: Seq<RowModel>, i: int)
    requires
        0 <= at <= rows.len(),
        done.len() == at,
        0 <= i < rows.len(),
        images::materialized_from(rows, s, m, at, done) is Ok,
    ensures
        images::materialized_from(rows, s, m, at, done)->Ok_0.len() == rows.len(),
        i < at ==> images::materialized_from(rows, s, m, at, done)->Ok_0[i] == done[i],
        i >= at ==> values::materialized(rows[i], s, m) is Ok,
        i >= at ==> images::materialized_from(rows, s, m, at, done)->Ok_0[i] == values::materialized(
            rows[i],
            s,
            m,
        )->Ok_0,
    decreases rows.len() - at,
{
    if at < rows.len() {
        let r = values::materialized(rows[at], s, m)->Ok_0;
        each_materialized(rows, s, m, at + 1, done.push(r), i);
    }
}

proof fn numbers_stay(rows: Seq<RowModel>, column: Seq<char>, at: int, done: Seq<RowModel>, last: u64, next: u64)
    requires
        0 <= at <= rows.len(),
        done == rows.take(at),
        forall|i: int| 0 <= i < rows.len() ==> !images::wants_number(#[trigger] rows[i], column),
        images::numbered_from(rows, column, at, done, last, next) is Ok,
    ensures
        images::numbered_from(rows, column, at, done, last, next)->Ok_0.rows == rows,
    decreases rows.len() - at,
{
    if at < rows.len() {
        assert(!images::wants_number(rows[at], column));
        assert(done.push(rows[at]) =~= rows.take(at + 1));
        if let Some(value) = rows[at].get(column) {
            let n = images::number_in(value)->0;
            numbers_stay(
                rows,
                column,
                at + 1,
                done.push(rows[at]),
                last,
                images::larger(next, (n as u64).saturating_add(1)),
            );
        }
    } else {
        assert(rows.take(at) =~= rows);
    }
}

/// Rows that were inserted are read behind those that the table had.
pub proof fn inserted_rows_are_read(t: TableModel, rows: Seq<RowModel>, m: MomentModel)
    requires
        rows.len() > 0,
        !sqltext::is_memory(t.schema),
        t.overlay is None,
        table::inserted(t, rows, m) is Ok,
    ensures
        ({
            let after = table::inserted(t, rows, m)->Ok_0.0;
            let given = images::numbered(t.schema, t.next_id, rows)->Ok_0.rows;
            let full = images::materialized_all(given, t.schema, m)->Ok_0;
            &&& after.rows() == t.rows() + rowpages::anonymous(full)
            &&& after.overlay is None
            &&& after.schema == (SchemaModel {
                next_page_number: after.schema.next_page_number,
                ..t.schema
            })
        }),
{
    let given = images::numbered(t.schema, t.next_id, rows)->Ok_0.rows;
    let full = images::materialized_all(given, t.schema, m)->Ok_0;
    let parts = rowpages::groups(full)->Ok_0;
    rowpages::no_oversized(rowpages::encodings(full), 0);
    rowpages::groups_flat(full, 0);
    let added = rowpages::laid_out(t.schema.next_page_number as int, parts);
    rowpages::laid_out_rows(t.schema.next_page_number as int, parts);
    assert(rowpages::rows_of(t.pages + added) =~= t.groups() + parts);
    rowpages::flat_concat(t.groups(), parts);
    assert(rowpages::anonymous(full).subrange(0, full.len() as int) =~= rowpages::anonymous(full));
}

/// Rows that were staged are the rows that are read.
pub proof fn staged_rows_are_read(t: TableModel, rows: Seq<RowModel>, m: MomentModel)
    requires
        table::staged(t, rows, m) is Ok,
    ensures
        table::staged(t, rows, m)->Ok_0.rows() == images::prepared(rows, t.schema, m)->Ok_0,
{
}

proof fn stored_pages_unpack(pages: Seq<PageModel>)
    ensures
        rowpages::rows_of(rowpages::contents(disk::all_stored(pages))) == rowpages::rows_of(
            rowpages::contents(pages),
        ),
{
    let back = disk::all_stored(pages);
    assert forall|i: int| 0 <= i < pages.len() implies rowpages::unpacked(#[trigger] back[i])
        == rowpages::unpacked(pages[i]) by {}
    assert(rowpages::rows_of(rowpages::contents(back)) =~= rowpages::rows_of(
        rowpages::contents(pages),
    ));
}

proof fn listed_behind(count: nat)
    requires
        count <= u32::MAX,
    ensures
        rowpages::number_behind(disk::listing(count)) == count,
    decreases count,
{
    if count > 0 {
        listed_behind((count - 1) as nat);
        assert(disk::listing(count).drop_last() =~= disk::listing((count - 1) as nat));
    }
}

/// A table whose pages have the size of the records of a new segment file is written into it and
/// read back: the file is read record after record, the table can be loaded from what comes back,
/// and it has the rows that it had. Its next page goes behind the last of them.
pub proof fn a_restart_keeps_rows(t: TableModel, pages: Seq<PageModel>, name: Seq<char>, record: nat)
    requires
        !sqltext::is_memory(t.schema),
        t.overlay is None,
        rowpages::contents(pages) == t.pages,
        rowpages::in_order(t.pages, t.schema.next_page_number as int),
        57 <= record < 0x1_0000_0000,
        forall|i: int| 0 <= i < t.pages.len() ==> (#[trigger] t.pages[i]).length + 57 == record,
    ensures
        disk::writes_from(pages, record, 0, Seq::empty()).1 is Ok,
        ({
            let file = disk::put_all(
                Seq::empty(),
                disk::writes_from(pages, record, 0, Seq::empty()).0,
            );
            let count = disk::records_of(pages);
            let listed = disk::listing(count);
            let back = disk::pages_read(name, file, record, count);
            &&& file.len() == count * record
            &&& back is Ok
            &&& rowpages::in_order(
                rowpages::contents(back->Ok_0),
                rowpages::number_behind(listed) as int,
            )
            &&& database::loaded(t.schema, listed, rowpages::contents(back->Ok_0)).rows() == t.rows()
            &&& rowpages::number_behind(listed) == count <= t.schema.next_page_number
        }),
{
    let count = disk::records_of(pages);
    let shown = rowpages::contents(pages);
    assert forall|i: int| 0 <= i < pages.len() implies (#[trigger] pages[i]).header
        == shown[i].header by {}
    assert(disk::numbers_rise(pages)) by {
        assert forall|i: int, j: int| 0 <= i < j < pages.len() implies (
        #[trigger] pages[i]).header.page_number < (#[trigger] pages[j]).header.page_number by {
            assert(shown[i].header.page_number < shown[j].header.page_number);
        }
    }
    if pages.len() > 0 {
        assert(shown[pages.len() - 1].header == pages.last().header);
        assert(shown[pages.len() - 1].header.page_number < t.schema.next_page_number);
    }
    assert forall|i: int| 0 <= i < pages.len() implies (#[trigger] pages[i]).data.len() + 57
        == record by {
        assert(shown[i].length == pages[i].data.len());
    }
    disk::pages_of_one_size_are_written(pages, record, 0, Seq::empty());
    disk::written_pages_are_read(name, pages, record, count);
    stored_pages_unpack(pages);
    listed_behind(count);
    let back = rowpages::contents(disk::all_stored(pages));
    assert forall|i: int| 0 <= i < back.len() implies (#[trigger] back[i]).header.page_number
        == pages[i].header.page_number by {}
    assert(rowpages::in_order(back, count as int));
}

// ---------------------------------------------------------------------------------------------
// Stores
// ---------------------------------------------------------------------------------------------
/// A table that has only grown: the same definition but for the count of pages, and the rows
/// that it had before the new ones.
pub open spec fn table_grown(a: TableModel, b: TableModel) -> bool {
    &&& b.schema == (SchemaModel { next_page_number: b.schema.next_page_number, ..a.schema })
    &&& a.overlay is None ==> b.overlay is None
    &&& a.rows().is_prefix_of(b.rows())
}

/// A store in which every table that was there has only grown.
pub open spec fn grown(a: StoreModel, b: StoreModel) -> bool {
    forall|d: Seq<char>, t: Seq<char>| #[trigger]
        store::table_in(a, d, t) matches Some(x) ==> store::table_in(b, d, t) is Some && table_grown(
            x,
            store::table_in(b, d, t)->0,
        )
}

proof fn grown_further(a: StoreModel, b: StoreModel, c: StoreModel)
    requires
        grown(a, b),
        grown(b, c),
    ensures
        grown(a, c),
{
    assert forall|d: Seq<char>, t: Seq<char>| #[trigger]
        store::table_in(a, d, t) is Some implies store::table_in(c, d, t) is Some && table_grown(
        store::table_in(a, d, t)->0,
        store::table_in(c, d, t)->0,
    ) by {
        let x = store::table_in(a, d, t)->0;
        assert(store::table_in(b, d, t) is Some);
        let y = store::table_in(b, d, t)->0;
        assert(table_grown(x, y));
        let z = store::table_in(c, d, t)->0;
        assert(table_grown(y, z));
        assert(x.rows() =~= z.rows().take(x.rows().len() as int)) by {
            assert forall|i: int| 0 <= i < x.rows().len() implies x.rows()[i] == z.rows()[i] by {
                assert(x.rows()[i] == y.rows()[i]);
                assert(y.rows()[i] == z.rows()[i]);
            }
        }
    }
}

/// Whether an insert can be redone: its table is there, keeps its rows on pages, and the row has
/// a key and all its numbers.
pub open spec fn redoable(s: StoreModel, c: CommandModel) -> bool {
    c matches CommandModel::Insert { database, table, row } && store::table_in(s, database, table) matches Some(t)
        && !sqltext::is_memory(t.schema) && t.overlay is None && keyed(row, t.schema) && is_numbered(row, t.schema)
}

/// Whether a store holds a row that stands in the way of an insert.
pub open spec fn standing(s: StoreModel, c: CommandModel) -> bool {
    c matches CommandModel::Insert { database, table, row } && store::table_in(s, database, table) matches Some(t)
        && replay::stored_conflict(s, database, table, row, t.schema)
}

proof fn same_keys(a: SchemaModel, b: SchemaModel)
    requires
        b == (SchemaModel { next_page_number: b.next_page_number, ..a }),
    ensures
        schema::keys(b) == schema::keys(a),
        sqltext::is_memory(b) == sqltext::is_memory(a),
        sqltext::auto_increment(b) == sqltext::auto_increment(a),
{
}

proof fn growth_keeps(a: StoreModel, b: StoreModel, c: CommandModel)
    requires
        grown(a, b),
    ensures
        redoable(a, c) ==> redoable(b, c),
        standing(a, c) ==> standing(b, c),
{
    if let CommandModel::Insert { database, table, row } = c {
        if store::table_in(a, database, table) is Some {
            let x = store::table_in(a, database, table)->0;
            let y = store::table_in(b, database, table)->0;
            assert(table_grown(x, y));
            same_keys(x.schema, y.schema);
            if standing(a, c) {
                let i = choose|i: int|
                    0 <= i < x.rows().len() && commands::conflict(#[trigger] x.rows()[i], row, x.schema);
                assert(y.rows()[i] == x.rows()[i]);
                assert(commands::conflict(y.rows()[i], row, y.schema));
            }
            if redoable(a, c) {
                let i = choose|i: int|
                    0 <= i < schema::keys(x.schema).len() && values::key(
                        row,
                        (#[trigger] schema::keys(x.schema)[i]).columns,
                    ) is Some;
                assert(values::key(row, schema::keys(y.schema)[i].columns) is Some);
            }
        }
    }
}

/// Whether a row of a table stands in the way of another.
pub open spec fn in_the_way(t: TableModel, r: RowModel) -> bool {
    exists|k: int| 0 <= k < t.rows().len() && commands::conflict(#[trigger] t.rows()[k], r, t.schema)
}

/// Rows with keys and numbers that were inserted make their table grow, and each of them stands.
proof fn inserted_rows_stand(t: TableModel, rows: Seq<RowModel>, m: MomentModel)
    requires
        rows.len() > 0,
        !sqltext::is_memory(t.schema),
        t.overlay is None,
        table::inserted(t, rows, m) is Ok,
        forall|i: int|
            0 <= i < rows.len() ==> keyed(#[trigger] rows[i], t.schema) && is_numbered(rows[i], t.schema),
    ensures
        table_grown(t, table::inserted(t, rows, m)->Ok_0.0),
        forall|i: int| 0 <= i < rows.len() ==> in_the_way(table::inserted(t, rows, m)->Ok_0.0, #[trigger] rows[i]),
{
    let next = table::inserted(t, rows, m)->Ok_0.0;
    inserted_rows_are_read(t, rows, m);
    let given = images::numbered(t.schema, t.next_id, rows)->Ok_0.rows;
    let full = images::materialized_all(given, t.schema, m)->Ok_0;
    if let Some(column) = sqltext::auto_increment(t.schema) {
        assert forall|i: int| 0 <= i < rows.len() implies !images::wants_number(#[trigger] rows[i], column) by {
            assert(is_numbered(rows[i], t.schema));
        }
        assert(rows.take(0) =~= Seq::empty());
        numbers_stay(
            rows,
            column,
            0,
            Seq::empty(),
            0,
            match t.next_id {
                Some(n) => n,
                None => 1,
            },
        );
    }
    assert(given == rows);
    assert(t.rows() =~= next.rows().take(t.rows().len() as int));
    same_keys(t.schema, next.schema);
    assert forall|i: int| 0 <= i < rows.len() implies in_the_way(next, #[trigger] rows[i]) by {
        let r = rows[i];
        each_materialized(rows, t.schema, m, 0, Seq::empty(), i);
        stored_row_conflicts(r, t.schema, m);
        let k = t.rows().len() + i;
        assert(next.rows()[k] == unnamed(full[i]));
        assert(commands::conflict(next.rows()[k], r, next.schema));
    }
}

/// A store grows where one of its tables does.
proof fn store_grows(s: StoreModel, d: Seq<char>, t: Seq<char>, next: TableModel)
    requires
        store::table_in(s, d, t) is Some,
        table_grown(store::table_in(s, d, t)->0, next),
    ensures
        ({
            let db = store::database_of(s, d)->0;
            let after = assoc::with_entry(s, d, database::with_table(db, t, next));
            grown(s, after) && store::table_in(after, d, t) == Some(next)
        }),
{
    let db = store::database_of(s, d)->0;
    let next_db = database::with_table(db, t, next);
    let after = assoc::with_entry(s, d, next_db);
    assert forall|d2: Seq<char>, t2: Seq<char>| #[trigger] store::table_in(s, d2, t2) is Some implies store::table_in(
        after,
        d2,
        t2,
    ) is Some && table_grown(store::table_in(s, d2, t2)->0, store::table_in(after, d2, t2)->0) by {
        assoc::set_then_lookup(s, d, next_db, d2);
        let x = store::table_in(s, d2, t2)->0;
        assert(x.rows() =~= x.rows().take(x.rows().len() as int));
        if d2 == d {
            assoc::set_then_lookup(db.tables, t, next, t2);
        }
    }
    assoc::set_then_lookup(s, d, next_db, d);
    assoc::set_then_lookup(db.tables, t, next, t);
}

/// What an insert that succeeds makes of a store.
proof fn insert_steps(s: StoreModel, c: CommandModel, rows: Seq<RowModel>, defer: bool, orphans: u64, cx: ContextModel)
    requires
        rows.len() > 0,
        redoable(s, c),
        apply::step(s, c, rows, defer, orphans, cx).1 is Ok,
    ensures
        ({
            let d = c->Insert_database;
            let t = c->Insert_table;
            let before = store::table_in(s, d, t)->0;
            let db = store::database_of(s, d)->0;
            &&& table::inserted(before, rows, cx.moment) is Ok
            &&& apply::step(s, c, rows, defer, orphans, cx).0 == assoc::with_entry(
                s,
                d,
                database::with_table(db, t, table::inserted(before, rows, cx.moment)->Ok_0.0),
            )
        }),
{
    reveal(apply::step);
    reveal(apply::database_step);
    reveal(database::rows_inserted);
}

/// A run of inserts that succeeds makes its table grow, and every row of it stands.
proof fn run_is_stored(s: StoreModel, list: Seq<CommandModel>, at: int, end: int, defer: bool, orphans: u64, cx: ContextModel)
    requires
        0 <= at < end <= list.len(),
        forall|i: int| at <= i < end ==> apply::joins(list[at], #[trigger] list[i]),
        forall|i: int| at <= i < end ==> redoable(s, #[trigger] list[i]),
        apply::step(s, list[at], apply::rows_of(list, at, end), defer, orphans, cx).1 is Ok,
    ensures
        ({
            let after = apply::step(s, list[at], apply::rows_of(list, at, end), defer, orphans, cx).0;
            grown(s, after) && forall|i: int| at <= i < end ==> standing(after, #[trigger] list[i])
        }),
{
    let c = list[at];
    let rows = apply::rows_of(list, at, end);
    let after = apply::step(s, c, rows, defer, orphans, cx).0;
    assert(redoable(s, list[at]));
    let d = c->Insert_database;
    let t = c->Insert_table;
    let before = store::table_in(s, d, t)->0;
    insert_steps(s, c, rows, defer, orphans, cx);
    let next = table::inserted(before, rows, cx.moment)->Ok_0.0;
    assert forall|i: int| 0 <= i < rows.len() implies keyed(#[trigger] rows[i], before.schema) && is_numbered(
        rows[i],
        before.schema,
    ) by {
        assert(apply::joins(list[at], list[at + i]));
        assert(redoable(s, list[at + i]));
        assert(rows[i] == apply::row_of(list[at + i]));
    }
    inserted_rows_stand(before, rows, cx.moment);
    store_grows(s, d, t, next);
    assert forall|i: int| at <= i < end implies standing(after, #[trigger] list[i]) by {
        assert(apply::joins(list[at], list[i]));
        assert(redoable(s, list[i]));
        assert(rows[i - at] == apply::row_of(list[i]));
        assert(in_the_way(next, rows[i - at]));
        let k = choose|k: int|
            0 <= k < next.rows().len() && commands::conflict(#[trigger] next.rows()[k], rows[i - at], next.schema);
        assert(commands::conflict(next.rows()[k], list[i]->Insert_row, next.schema));
    }
}

proof fn run_joins(list: Seq<CommandModel>, c: CommandModel, at: int, i: int)
    requires
        0 <= at <= i < apply::run_end(list, c, at),
    ensures
        i < list.len(),
        apply::joins(c, list[i]),
    decreases i - at,
{
    if at < i {
        run_joins(list, c, at + 1, i);
    }
}

/// A batch of inserts that succeeds makes tables grow, and every row of it stands.
proof fn batch_is_stored(
    s: StoreModel,
    list: Seq<CommandModel>,
    at: int,
    affected: u64,
    last_id: u64,
    defer: bool,
    orphans: u64,
    cx: ContextModel,
)
    requires
        0 <= at <= list.len(),
        forall|i: int| at <= i < list.len() ==> redoable(s, #[trigger] list[i]),
        apply::applied_from(s, list, at, affected, last_id, defer, orphans, cx).1 is Ok,
    ensures
        ({
            let after = apply::applied_from(s, list, at, affected, last_id, defer, orphans, cx).0;
            grown(s, after) && forall|i: int| at <= i < list.len() ==> standing(after, #[trigger] list[i])
        }),
    decreases list.len() - at,
{
    if at < list.len() {
        let c = list[at];
        let end = apply::run_end(list, c, at + 1);
        apply::run_end_bounds(list, c, at + 1);
        assert(redoable(s, list[at]));
        assert forall|i: int| at <= i < end implies apply::joins(list[at], #[trigger] list[i]) by {
            if i > at {
                run_joins(list, c, at + 1, i);
            }
        }
        let rows = apply::rows_of(list, at, end);
        let (mid, r) = apply::step(s, c, rows, defer, orphans, cx);
        run_is_stored(s, list, at, end, defer, orphans, cx);
        assert forall|i: int| end <= i < list.len() implies redoable(mid, #[trigger] list[i]) by {
            growth_keeps(s, mid, list[i]);
        }
        let n = r->Ok_0.0;
        let id = r->Ok_0.1;
        let next_affected = affected.saturating_add(n);
        let next_id = if last_id == 0 {
            id
        } else {
            last_id
        };
        batch_is_stored(mid, list, end, next_affected, next_id, defer, orphans, cx);
        let after = apply::applied_from(mid, list, end, next_affected, next_id, defer, orphans, cx).0;
        grown_further(s, mid, after);
        assert forall|i: int| at <= i < list.len() implies standing(after, #[trigger] list[i]) by {
            if i < end {
                growth_keeps(mid, after, list[i]);
            }
        }
    } else {
        assert forall|d: Seq<char>, t: Seq<char>| #[trigger] store::table_in(s, d, t) is Some implies table_grown(
            store::table_in(s, d, t)->0,
            store::table_in(s, d, t)->0,
        ) by {
            let x = store::table_in(s, d, t)->0;
            assert(x.rows() =~= x.rows().take(x.rows().len() as int));
        }
    }
}

// ---------------------------------------------------------------------------------------------
// What is left of a batch
// ---------------------------------------------------------------------------------------------
proof fn lookup_mapped<V, W>(s: Seq<(Seq<char>, V)>, f: spec_fn((Seq<char>, V)) -> (Seq<char>, W), name: Seq<char>, from: int)
    requires
        0 <= from,
        forall|e: (Seq<char>, V)| (#[trigger] f(e)).0 == e.0,
    ensures
        assoc::entry_from(s.map_values(f), name, from) == assoc::entry_from(s, name, from),
    decreases s.len() - from,
{
    if from < s.len() {
        assert(s.map_values(f)[from] == f(s[from]));
        lookup_mapped(s, f, name, from + 1);
    }
}

/// The catalog of a store has the schemas of its tables.
pub proof fn catalog_holds(s: StoreModel, d: Seq<char>, t: Seq<char>)
    ensures
        validate::schema_in(validate::catalog_of(s), d, t) == (match store::table_in(s, d, t) {
            Some(found) => Some(found.schema),
            None => None,
        }),
{
    let f = |e: (Seq<char>, DatabaseModel)|
        (e.0, e.1.tables.map_values(|t: (Seq<char>, TableModel)| (t.0, t.1.schema)));
    let g = |t: (Seq<char>, TableModel)| (t.0, t.1.schema);
    lookup_mapped(s, f, d, 0);
    assoc::entry_found(s, d, 0);
    if let Some(i) = assoc::entry(s, d) {
        assert(validate::catalog_of(s)[i] == f(s[i]));
        let tables = s[i].1.tables;
        lookup_mapped(tables, g, t, 0);
        assoc::entry_found(tables, t, 0);
        assert(tables.map_values(|t: (Seq<char>, TableModel)| (t.0, t.1.schema)) =~= tables.map_values(g));
        if let Some(k) = assoc::entry(tables, t) {
            assert(tables.map_values(g)[k] == g(tables[k]));
        }
    }
}

pub open spec fn start(s: StoreModel) -> ReplayModel {
    ReplayModel { catalog: validate::catalog_of(s), procedures: validate::procedures_of(s) }
}

/// The inserts that a replay does not skip.
pub open spec fn missing_fn(s: StoreModel) -> spec_fn(CommandModel) -> bool {
    |c: CommandModel| !standing(s, c)
}

proof fn left_over(s: StoreModel, list: Seq<CommandModel>, at: int)
    requires
        0 <= at <= list.len(),
        forall|i: int| 0 <= i < list.len() ==> redoable(s, #[trigger] list[i]),
    ensures
        replay::normalized_from(start(s), list, s, at, list.take(at).filter(missing_fn(s))) == Ok::<
            Seq<CommandModel>,
            Seq<char>,
        >(list.filter(missing_fn(s))),
    decreases list.len() - at,
{
    let p = missing_fn(s);
    if at < list.len() {
        reveal(replay::replay_step);
        let c = list[at];
        assert(redoable(s, list[at]));
        catalog_holds(s, c->Insert_database, c->Insert_table);
        assert(replay::replay_step(start(s), c, s) == Ok::<(ReplayModel, bool), Seq<char>>((start(s), p(c))));
        seqs::filter_step(list, at, p);
        left_over(s, list, at + 1);
    } else {
        assert(list.take(at) =~= list);
    }
}

proof fn left_of(s: StoreModel, list: Seq<CommandModel>)
    requires
        forall|i: int| 0 <= i < list.len() ==> redoable(s, #[trigger] list[i]),
    ensures
        replay::normalized(list, s) == Ok::<Seq<CommandModel>, Seq<char>>(list.filter(missing_fn(s))),
{
    left_over(s, list, 0);
    assert(list.take(0) =~= Seq::empty());
    assert(list.take(0).filter(missing_fn(s)) =~= Seq::empty()) by {
        reveal(Seq::filter);
    }
}

proof fn kept_are_given(list: Seq<CommandModel>, p: spec_fn(CommandModel) -> bool, i: int)
    requires
        0 <= i < list.filter(p).len(),
    ensures
        p(list.filter(p)[i]),
        list.contains(list.filter(p)[i]),
{
    broadcast use vstd::seq_lib::group_filter_ensures;

    assert(list.filter(p).contains(list.filter(p)[i]));
    seqs::filter_holds(list, p, list.filter(p)[i]);
}

proof fn targets_are_given(list: Seq<CommandModel>, at: int, done: Seq<(Seq<char>, Seq<char>)>, k: int)
    requires
        0 <= at <= list.len(),
        0 <= k < replay::changed_tables_from(list, at, done).len(),
    ensures
        done.contains(replay::changed_tables_from(list, at, done)[k]) || exists|i: int|
            at <= i < list.len() && commands::rows_target(#[trigger] list[i]) == Some(
                replay::changed_tables_from(list, at, done)[k],
            ),
    decreases list.len() - at,
{
    if at < list.len() {
        let next = match commands::rows_target(list[at]) {
            None => done,
            Some((d, t)) => pairs::pair_added(done, d, t),
        };
        targets_are_given(list, at + 1, next, k);
        let x = replay::changed_tables_from(list, at, done)[k];
        if next.contains(x) {
            if !done.contains(x) {
                let j = choose|j: int| 0 <= j < next.len() && next[j] == x;
                if j < done.len() {
                    assert(done[j] == x);
                }
                assert(commands::rows_target(list[at]) == Some(x));
            }
        } else {
            let i = choose|i: int|
                at + 1 <= i < list.len() && commands::rows_target(#[trigger] list[i]) == Some(x);
            assert(commands::rows_target(list[i]) == Some(x));
        }
    } else {
        assert(done.contains(done[k]));
    }
}

/// Putting staged rows on pages changes nothing where no rows are staged.
proof fn nothing_to_checkpoint(s: StoreModel, tables: Seq<(Seq<char>, Seq<char>)>, cx: ContextModel, at: int)
    requires
        0 <= at <= tables.len(),
        forall|i: int|
            0 <= i < tables.len() ==> (store::table_in(s, (#[trigger] tables[i]).0, tables[i].1) matches Some(t)
                && t.overlay is None),
    ensures
        replay::checkpointed_from(s, tables, cx, at) == (s, Ok::<(), Seq<char>>(())),
    decreases tables.len() - at,
{
    if at < tables.len() {
        reveal(database::checkpointed);
        let d = tables[at].0;
        assert(store::table_in(s, tables[at].0, tables[at].1) is Some);
        let db = store::database_of(s, d)->0;
        assert(database::checkpointed(db, tables[at].1, cx.moment) == Ok::<DatabaseModel, Seq<char>>(db));
        assoc::entry_found(s, d, 0);
        assert(assoc::with_entry(s, d, db) =~= s);
        nothing_to_checkpoint(s, tables, cx, at + 1);
    }
}

/// A logged batch of inserts is redone once: replaying it a second time changes nothing, whether
/// the first replay found none, some or all of its rows stored.
pub proof fn inserts_are_redone_once(s: StoreModel, list: Seq<CommandModel>, cx: ContextModel, later: ContextModel)
    requires
        forall|i: int| 0 <= i < list.len() ==> redoable(s, #[trigger] list[i]),
        replay::batch_replayed(s, list, cx).1 is Ok,
    ensures
        ({
            let after = replay::batch_replayed(s, list, cx).0;
            &&& grown(s, after)
            &&& forall|i: int| 0 <= i < list.len() ==> standing(after, #[trigger] list[i])
            &&& replay::batch_replayed(after, list, later) == (after, Ok::<(), Seq<char>>(()))
        }),
{
    reveal(replay::batch_replayed);
    let p = missing_fn(s);
    let left = list.filter(p);
    let after = replay::batch_replayed(s, list, cx).0;
    left_of(s, list);
    assert forall|i: int| 0 <= i < left.len() implies redoable(s, #[trigger] left[i]) by {
        kept_are_given(list, p, i);
        let j = choose|j: int| 0 <= j < list.len() && list[j] == left[i];
        assert(redoable(s, list[j]));
    }
    if left.len() > 0 {
        assert(batch::refused(left, s, cx) is None);
        let applied = apply::applied_batch(s, left, true, 0, cx).0;
        batch_is_stored(s, left, 0, 0, 0, true, 0, cx);
        let tables = replay::changed_tables_from(left, 0, Seq::empty());
        assert forall|i: int| 0 <= i < tables.len() implies (store::table_in(
            applied,
            (#[trigger] tables[i]).0,
            tables[i].1,
        ) matches Some(t) && t.overlay is None) by {
            targets_are_given(left, 0, Seq::empty(), i);
            let j = choose|j: int| 0 <= j < left.len() && commands::rows_target(#[trigger] left[j]) == Some(tables[i]);
            assert(redoable(s, left[j]));
            growth_keeps(s, applied, left[j]);
        }
        nothing_to_checkpoint(applied, tables, cx, 0);
        assert(after == applied);
    } else {
        assert(after == s);
        assert forall|d: Seq<char>, t: Seq<char>| #[trigger] store::table_in(s, d, t) is Some implies table_grown(
            store::table_in(s, d, t)->0,
            store::table_in(s, d, t)->0,
        ) by {
            let x = store::table_in(s, d, t)->0;
            assert(x.rows() =~= x.rows().take(x.rows().len() as int));
        }
    }
    assert(grown(s, after));
    assert forall|i: int| 0 <= i < list.len() implies standing(after, #[trigger] list[i]) by {
        growth_keeps(s, after, list[i]);
        if !standing(s, list[i]) {
            broadcast use vstd::seq_lib::group_filter_ensures;

            assert(p(list[i]));
            assert(left.contains(list[i]));
            let k = choose|k: int| 0 <= k < left.len() && left[k] == list[i];
            assert(standing(after, left[k]));
        }
    }
    assert forall|i: int| 0 <= i < list.len() implies redoable(after, #[trigger] list[i]) by {
        growth_keeps(s, after, list[i]);
        assert(redoable(s, list[i]));
    }
    left_of(after, list);
    let again = list.filter(missing_fn(after));
    if again.len() > 0 {
        kept_are_given(list, missing_fn(after), 0);
        let j = choose|j: int| 0 <= j < list.len() && list[j] == again[0];
        assert(standing(after, list[j]));
    }
    assert(again =~= Seq::empty());
    replay::skipped_batch_changes_nothing(after, list, later);
}

// ---------------------------------------------------------------------------------------------
// Replaced rows
// ---------------------------------------------------------------------------------------------
/// Whether two definitions differ at most in what a rewrite of the pages changes.
pub open spec fn same_definition(a: SchemaModel, b: SchemaModel) -> bool {
    b == (SchemaModel {
        next_page_number: b.next_page_number,
        generation: b.generation,
        ..a
    })
}

/// Whether a row has a value for every column but the one that numbers it.
pub open spec fn complete(r: RowModel, s: SchemaModel) -> bool {
    forall|i: int|
        0 <= i < s.columns.len() ==> r.contains((#[trigger] s.columns[i]).name) || sqltext::auto_increment(s) == Some(
            s.columns[i].name,
        )
}

proof fn complete_rows_stay(r: RowModel, s: SchemaModel, m: MomentModel, later: MomentModel, at: int)
    requires
        complete(r, s),
        0 <= at,
    ensures
        values::filled_from(r, s.columns, sqltext::auto_increment(s), m, at) matches Ok(full) ==> full == r,
        values::filled_from(r, s.columns, sqltext::auto_increment(s), later, at) == values::filled_from(
            r,
            s.columns,
            sqltext::auto_increment(s),
            m,
            at,
        ),
    decreases s.columns.len() - at,
{
    if at < s.columns.len() {
        assert(r.contains(s.columns[at].name) || sqltext::auto_increment(s) == Some(s.columns[at].name));
        complete_rows_stay(r, s, m, later, at + 1);
    }
}

proof fn same_materialized(a: SchemaModel, b: SchemaModel, r: RowModel, m: MomentModel, later: MomentModel)
    requires
        same_definition(a, b),
        later == m || complete(r, a),
    ensures
        schema::keys(b) == schema::keys(a),
        sqltext::is_memory(b) == sqltext::is_memory(a),
        values::materialized(r, b, later) == values::materialized(r, a, m),
        complete(r, a) ==> (values::materialized(r, a, m) matches Ok(full) ==> full == r),
{
    assert(sqltext::auto_increment(b) == sqltext::auto_increment(a));
    assert(crate::checks::checks(b) == crate::checks::checks(a));
    if complete(r, a) {
        complete_rows_stay(r, a, m, later, 0);
    }
}

proof fn same_materialized_all(
    a: SchemaModel,
    b: SchemaModel,
    rows: Seq<RowModel>,
    m: MomentModel,
    later: MomentModel,
    at: int,
    done: Seq<RowModel>,
)
    requires
        same_definition(a, b),
        later == m || forall|i: int| 0 <= i < rows.len() ==> complete(#[trigger] rows[i], a),
    ensures
        images::materialized_from(rows, b, later, at, done) == images::materialized_from(rows, a, m, at, done),
    decreases rows.len() - at,
{
    if 0 <= at < rows.len() {
        same_materialized(a, b, rows[at], m, later);
        if let Ok(r) = values::materialized(rows[at], a, m) {
            same_materialized_all(a, b, rows, m, later, at + 1, done.push(r));
        }
    }
}

proof fn same_prepared(a: SchemaModel, b: SchemaModel, rows: Seq<RowModel>, m: MomentModel, later: MomentModel)
    requires
        same_definition(a, b),
        later == m || forall|i: int| 0 <= i < rows.len() ==> complete(#[trigger] rows[i], a),
    ensures
        images::prepared(rows, b, later) == images::prepared(rows, a, m),
{
    same_materialized_all(a, b, rows, m, later, 0, Seq::empty());
    same_materialized(a, b, RowModel::empty(), m, m);
}

proof fn same_keys_added(keys: KeysModel, r: RowModel, list: Seq<schema::KeyModel>, d: Seq<char>, t: Seq<char>, s: StoreModel, other: StoreModel, at: int)
    ensures
        validate::keys_added(keys, r, list, d, t, false, other, at) == validate::keys_added(keys, r, list, d, t, false, s, at),
    decreases list.len() - at,
{
    if 0 <= at < list.len() {
        match values::key(r, list[at].columns) {
            None => {
                same_keys_added(keys, r, list, d, t, s, other, at + 1);
            },
            Some(k) => {
                let known = validate::brought(keys, d, t, list[at].name);
                same_keys_added(
                    validate::with_brought(keys, d, t, list[at].name, known.push(k)),
                    r,
                    list,
                    d,
                    t,
                    s,
                    other,
                    at + 1,
                );
            },
        }
    }
}

proof fn same_replaced(
    rows: Seq<RowModel>,
    a: SchemaModel,
    b: SchemaModel,
    d: Seq<char>,
    t: Seq<char>,
    s: StoreModel,
    other: StoreModel,
    cx: ContextModel,
    later: ContextModel,
    at: int,
    done: Seq<RowModel>,
    keys: KeysModel,
)
    requires
        same_definition(a, b),
        later.moment == cx.moment || forall|i: int| 0 <= i < rows.len() ==> complete(#[trigger] rows[i], a),
    ensures
        dmlcheck::replaced_from(rows, b, d, t, other, later, at, done, keys) == dmlcheck::replaced_from(
            rows,
            a,
            d,
            t,
            s,
            cx,
            at,
            done,
            keys,
        ),
    decreases rows.len() - at,
{
    if 0 <= at < rows.len() {
        same_materialized(a, b, rows[at], cx.moment, later.moment);
        if let Ok(full) = values::materialized(rows[at], a, cx.moment) {
            same_keys_added(keys, full, schema::keys(a), d, t, s, other, 0);
            if let Ok(next) = validate::keys_added(keys, full, schema::keys(a), d, t, false, s, 0) {
                same_replaced(rows, a, b, d, t, s, other, cx, later, at + 1, done.push(full), next);
            }
        }
    }
}

/// The rows that a table ends up with whose rows are replaced and then put on pages.
pub open spec fn settled_rows(rows: Seq<RowModel>, s: SchemaModel, m: MomentModel) -> Result<Seq<RowModel>, Seq<char>> {
    match images::prepared(rows, s, m) {
        Err(e) => Err(e),
        Ok(full) => images::prepared(full, s, m),
    }
}

/// Whether the rows of a table can be replaced.
pub open spec fn replaceable(
    s: StoreModel,
    d: Seq<char>,
    t: Seq<char>,
    rows: Seq<RowModel>,
    definition: SchemaModel,
    cx: ContextModel,
) -> bool {
    &&& dmlcheck::replaced_from(rows, definition, d, t, s, cx, 0, Seq::empty(), Seq::empty()) is Ok
    &&& settled_rows(rows, definition, cx.moment) is Ok
    &&& rowpages::pages_for(0, settled_rows(rows, definition, cx.moment)->Ok_0) is Ok
    &&& database::component(t) is Ok
}

pub open spec fn replacement(d: Seq<char>, t: Seq<char>, rows: Seq<RowModel>, affected: u64) -> Seq<CommandModel> {
    seq![CommandModel::ReplaceRows { database: d, table: t, rows: rows, affected_rows: affected }]
}

proof fn replacement_is_kept(s: StoreModel, d: Seq<char>, t: Seq<char>, rows: Seq<RowModel>, affected: u64)
    requires
        store::table_in(s, d, t) matches Some(x) && !sqltext::is_memory(x.schema),
    ensures
        replay::normalized(replacement(d, t, rows, affected), s) == Ok::<Seq<CommandModel>, Seq<char>>(
            replacement(d, t, rows, affected),
        ),
        replay::changed_tables_from(replacement(d, t, rows, affected), 0, Seq::empty()) == seq![(d, t)],
{
    reveal(replay::replay_step);
    let list = replacement(d, t, rows, affected);
    catalog_holds(s, d, t);
    assert(replay::replay_step(start(s), list[0], s) == Ok::<(ReplayModel, bool), Seq<char>>((start(s), true)));
    assert(Seq::<CommandModel>::empty().push(list[0]) =~= list);
    assert(replay::normalized_from(start(s), list, s, 1, list) == Ok::<Seq<CommandModel>, Seq<char>>(list));
    assert(pairs::pair_added(Seq::empty(), d, t) =~= seq![(d, t)]);
    assert(replay::changed_tables_from(list, 1, seq![(d, t)]) == seq![(d, t)]);
}

/// What replaying a replacement comes to.
proof fn replacement_is_replayed(
    s: StoreModel,
    d: Seq<char>,
    t: Seq<char>,
    rows: Seq<RowModel>,
    affected: u64,
    cx: ContextModel,
)
    requires
        store::table_in(s, d, t) matches Some(x) && !sqltext::is_memory(x.schema),
    ensures
        ({
            let definition = store::table_in(s, d, t)->0.schema;
            let (after, r) = replay::batch_replayed(s, replacement(d, t, rows, affected), cx);
            &&& r is Ok == replaceable(s, d, t, rows, definition, cx)
            &&& r is Ok ==> (store::table_in(after, d, t) matches Some(z) && same_definition(
                definition,
                z.schema,
            ) && z.rows() == rowpages::anonymous(settled_rows(rows, definition, cx.moment)->Ok_0))
        }),
{
    reveal(replay::batch_replayed);
    let list = replacement(d, t, rows, affected);
    let x = store::table_in(s, d, t)->0;
    replacement_is_kept(s, d, t, rows, affected);
    replacement_is_checked(s, d, t, rows, affected, cx);
    if dmlcheck::replaced_from(rows, x.schema, d, t, s, cx, 0, Seq::empty(), Seq::empty()) is Ok {
        replacement_is_staged(s, d, t, rows, affected, cx);
        if images::prepared(rows, x.schema, cx.moment) is Ok {
            let staged = apply::applied_batch(s, list, true, 0, cx).0;
            staged_rows_are_stored(staged, d, t, cx);
        }
    }
}

proof fn replacement_is_checked(
    s: StoreModel,
    d: Seq<char>,
    t: Seq<char>,
    rows: Seq<RowModel>,
    affected: u64,
    cx: ContextModel,
)
    requires
        store::table_in(s, d, t) is Some,
    ensures
        batch::refused(replacement(d, t, rows, affected), s, cx) is None == dmlcheck::replaced_from(
            rows,
            store::table_in(s, d, t)->0.schema,
            d,
            t,
            s,
            cx,
            0,
            Seq::empty(),
            Seq::empty(),
        ) is Ok,
{
    reveal(dmlcheck::replace_step);
    reveal(batch::check_command);
    let list = replacement(d, t, rows, affected);
    let sh = validate::shadow_of(s);
    catalog_holds(s, d, t);
    assert(pairs::without_pair(sh.keys, d, t) =~= Seq::empty()) by {
        reveal(Seq::filter);
    }
    if let Ok(next) = batch::check_command(sh, list[0], s, cx) {
        assert(batch::refused_from(next, list, s, cx, 1) is None);
    }
}

proof fn replacement_is_staged(
    s: StoreModel,
    d: Seq<char>,
    t: Seq<char>,
    rows: Seq<RowModel>,
    affected: u64,
    cx: ContextModel,
)
    requires
        store::table_in(s, d, t) is Some,
    ensures
        ({
            let x = store::table_in(s, d, t)->0;
            let (after, r) = apply::applied_batch(s, replacement(d, t, rows, affected), true, 0, cx);
            &&& r is Ok == images::prepared(rows, x.schema, cx.moment) is Ok
            &&& r is Ok ==> (store::table_in(after, d, t) matches Some(y) && y.schema == x.schema && y.overlay == Some(
                images::prepared(rows, x.schema, cx.moment)->Ok_0,
            ))
        }),
{
    reveal(apply::step);
    reveal(apply::database_step);
    reveal(database::rows_written);
    reveal(database::rows_staged);
    let list = replacement(d, t, rows, affected);
    let db = store::database_of(s, d)->0;
    let x = store::table_in(s, d, t)->0;
    apply::run_end_bounds(list, list[0], 1);
    assert(apply::run_end(list, list[0], 1) == 1);
    let (after, r) = apply::step(s, list[0], apply::rows_of(list, 0, 1), true, 0, cx);
    if let Ok(full) = images::prepared(rows, x.schema, cx.moment) {
        let y = table::staged(x, rows, cx.moment)->Ok_0;
        let staged = database::with_table(db, t, y);
        assoc::set_then_lookup(db.tables, t, y, t);
        let reset = TableModel { next_id: Some(1), ..y };
        assoc::set_then_lookup(staged.tables, t, reset, t);
        let next = if rows.len() == 0 && affected == 0 {
            database::numbering_reset(staged, t)
        } else {
            staged
        };
        assoc::set_then_lookup(s, d, next, d);
        assert(after == assoc::with_entry(s, d, next));
    }
    if let Ok((n, id)) = r {
        assert(apply::applied_from(after, list, 1, 0u64.saturating_add(n), id, true, 0, cx).0 == after);
    }
}

proof fn staged_rows_are_stored(s: StoreModel, d: Seq<char>, t: Seq<char>, cx: ContextModel)
    requires
        store::table_in(s, d, t) matches Some(y) && y.overlay is Some && !sqltext::is_memory(y.schema),
    ensures
        ({
            let y = store::table_in(s, d, t)->0;
            let given = y.overlay->0;
            let made = images::prepared(given, y.schema, cx.moment);
            let (after, r) = replay::checkpointed_from(s, seq![(d, t)], cx, 0);
            &&& r is Ok == (made is Ok && rowpages::pages_for(0, made->Ok_0) is Ok
                && database::component(t) is Ok)
            &&& r is Ok ==> (store::table_in(after, d, t) matches Some(z) && same_definition(y.schema, z.schema)
                && z.rows() == rowpages::anonymous(made->Ok_0))
        }),
{
    reveal(database::checkpointed);
    reveal(database::rows_replaced);
    let y = store::table_in(s, d, t)->0;
    let given = y.overlay->0;
    let db = store::database_of(s, d)->0;
    let tables = seq![(d, t)];
    match table::replaced(y, given, cx.moment) {
        Err(_) => {},
        Ok(z) => {
            let full = images::prepared(given, y.schema, cx.moment)->Ok_0;
            rowpages::no_oversized(rowpages::encodings(full), 0);
            rowpages::groups_flat(full, 0);
            rowpages::laid_out_rows(0, rowpages::groups(full)->Ok_0);
            assert(rowpages::anonymous(full).subrange(0, full.len() as int) =~= rowpages::anonymous(full));
            if database::component(t) is Ok {
                let written = database::with_table(db, t, z);
                assoc::set_then_lookup(db.tables, t, z, t);
                recounting_keeps(written, t);
                let counted = database::all_recounted(written);
                let next = database::table_of(counted, t)->0;
                let bare = TableModel { overlay: None, ..next };
                let bared = database::with_table(counted, t, bare);
                assoc::set_then_lookup(counted.tables, t, bare, t);
                recounting_keeps(bared, t);
                let last = database::all_recounted(bared);
                assoc::set_then_lookup(s, d, last, d);
                assert(replay::checkpointed_from(assoc::with_entry(s, d, last), tables, cx, 1).1 is Ok);
            }
        },
    }
}

proof fn recounting_keeps(db: DatabaseModel, name: Seq<char>)
    ensures
        database::table_of(database::all_recounted(db), name) == (match database::table_of(db, name) {
            Some(t) => Some(table::recounted(t)),
            None => None,
        }),
{
    let f = |e: (Seq<char>, TableModel)| (e.0, table::recounted(e.1));
    lookup_mapped(db.tables, f, name, 0);
    assoc::entry_found(db.tables, name, 0);
    if let Some(i) = assoc::entry(db.tables, name) {
        assert(db.tables.map_values(f)[i] == f(db.tables[i]));
    }
}

/// A logged replacement of a table's rows is redone once: replaying it a second time succeeds, and
/// leaves the rows that the first replay left. Rows that lack a column may get the time of the
/// replay, so that they are the same only where it is.
pub proof fn replacements_are_redone_once(
    s: StoreModel,
    d: Seq<char>,
    t: Seq<char>,
    rows: Seq<RowModel>,
    affected: u64,
    cx: ContextModel,
    later: ContextModel,
)
    requires
        store::table_in(s, d, t) matches Some(x) && !sqltext::is_memory(x.schema),
        later.moment == cx.moment || forall|i: int|
            0 <= i < rows.len() ==> complete(#[trigger] rows[i], store::table_in(s, d, t)->0.schema),
        replay::batch_replayed(s, replacement(d, t, rows, affected), cx).1 is Ok,
    ensures
        ({
            let list = replacement(d, t, rows, affected);
            let (once, _) = replay::batch_replayed(s, list, cx);
            let (twice, r) = replay::batch_replayed(once, list, later);
            &&& r is Ok
            &&& store::table_in(once, d, t) is Some
            &&& store::table_in(twice, d, t) is Some
            &&& store::table_in(once, d, t)->0.rows().len() == rows.len()
            &&& store::table_in(twice, d, t)->0.rows() == store::table_in(once, d, t)->0.rows()
        }),
{
    let list = replacement(d, t, rows, affected);
    let once = replay::batch_replayed(s, list, cx).0;
    let a = store::table_in(s, d, t)->0.schema;
    replacement_is_replayed(s, d, t, rows, affected, cx);
    let b = store::table_in(once, d, t)->0.schema;
    let full = images::prepared(rows, a, cx.moment)->Ok_0;
    materialized_count(rows, a, cx.moment, 0, Seq::empty());
    materialized_count(full, a, cx.moment, 0, Seq::empty());
    if later.moment != cx.moment {
        assert forall|i: int| 0 <= i < full.len() implies complete(#[trigger] full[i], a) by {
            assert(complete(rows[i], a));
            each_materialized(rows, a, cx.moment, 0, Seq::empty(), i);
            same_materialized(a, b, rows[i], cx.moment, cx.moment);
        }
    }
    same_materialized(a, b, RowModel::empty(), cx.moment, cx.moment);
    same_prepared(a, b, rows, cx.moment, later.moment);
    same_prepared(a, b, full, cx.moment, later.moment);
    same_replaced(rows, a, b, d, t, s, once, cx, later, 0, Seq::empty(), Seq::empty());
    replacement_is_replayed(once, d, t, rows, affected, later);
}

proof fn materialized_count(rows: Seq<RowModel>, s: SchemaModel, m: MomentModel, at: int, done: Seq<RowModel>)
    requires
        0 <= at <= rows.len(),
    ensures
        images::materialized_from(rows, s, m, at, done) matches Ok(full) ==> full.len() == done.len() + rows.len() - at,
    decreases rows.len() - at,
{
    if at < rows.len() {
        if let Ok(r) = values::materialized(rows[at], s, m) {
            materialized_count(rows, s, m, at + 1, done.push(r));
        }
    }
}

} // verus!
