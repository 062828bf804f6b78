//! What applying commands reports, and what it leaves besides the rows.
use crate::apply;
use crate::assoc;
use crate::commands;
use crate::commands::{CommandModel, WriteResult};
use crate::database;
use crate::database::DatabaseModel;
use crate::dmlcheck;
use crate::images;
use crate::loglaws;
use crate::loglaws::stands_alone;
use crate::predicate::ContextModel;
use crate::referential;
use crate::referential::{ChangeModel, SourceModel};
use crate::row::RowModel;
use crate::rowpages;
use crate::rowpages::RowPageModel;
use crate::schema::{MomentModel, SchemaModel};
use crate::seqs;
use crate::sqltext;
use crate::store;
use crate::store::StoreModel;
use crate::table::TableModel;
use crate::values;
use vstd::prelude::*;

verus! {

// ---------------------------------------------------------------------------------------------
// Counts
// ---------------------------------------------------------------------------------------------
/// A command reports the rows that it changed: an INSERT those it brings, a table image those it
/// says, a DELETE those it took, and so on; a command on tables or databases reports none. Cleaning
/// up reports what was left over.
pub proof fn commands_report_their_rows(
    db: DatabaseModel,
    c: CommandModel,
    rows: Seq<RowModel>,
    defer: bool,
    cx: ContextModel,
    s: StoreModel,
    orphans: u64,
)
    ensures
        ({
            let (next, r) = apply::database_step(db, c, rows, defer, cx);
            match c {
                CommandModel::Insert { table, .. } => r matches Ok(out) ==> database::rows_inserted(
                    db,
                    table,
                    rows,
                    cx.moment,
                ) matches Ok(x) && (rows.len() <= u64::MAX ==> out.0 == rows.len()) && out.1 == x.1 && next == x.0,
                CommandModel::Delete { table, filter, .. } => r matches Ok(out)
                    ==> database::rows_deleted(db, table, filter, defer, cx) matches Ok(x) && out.0
                    == x.1 && out.1 == 0 && next == x.0,
                CommandModel::Update { table, filter, assignments, .. } => r matches Ok(out)
                    ==> database::rows_updated(
                    db,
                    table,
                    filter,
                    assignments,
                    defer,
                    cx,
                ) matches Ok(x) && out.0 == x.1 && out.1 == 0 && next == x.0,
                CommandModel::ExpressionUpdate { table, filter, assignments, .. } => r matches Ok(out)
                    ==> database::rows_expressed(
                    db,
                    table,
                    filter,
                    assignments,
                    defer,
                    cx,
                ) matches Ok(x) && out.0 == x.1 && out.1 == 0 && next == x.0,
                CommandModel::ReplaceRows { affected_rows, .. } => r matches Ok(out) ==> out.0
                    == affected_rows && out.1 == 0,
                CommandModel::Upsert { table, update_columns, ignore, .. } => r matches Ok(out)
                    ==> database::rows_upserted(
                    db,
                    table,
                    rows,
                    update_columns,
                    ignore,
                    defer,
                    cx.moment,
                ) matches Ok(x) && out.0 == x.1 && out.1 == 0 && next == x.0,
                _ => r matches Ok(out) ==> out.0 == 0 && out.1 == 0,
            }
        }),
        apply::step(s, CommandModel::CleanupOrphanStorage, rows, defer, orphans, cx) == (
            s,
            Ok::<(u64, u64), Seq<char>>((orphans, 0)),
        ),
{
    reveal(apply::database_step);
    reveal(apply::step);
}

proof fn run_kept(list: Seq<CommandModel>, last: CommandModel, c: CommandModel, at: int)
    requires
        0 <= at <= list.len(),
        stands_alone(last),
    ensures
        apply::run_end(list.push(last), c, at) == apply::run_end(list, c, at),
        at <= apply::run_end(list, c, at) <= list.len(),
    decreases list.len() - at,
{
    reveal_with_fuel(apply::run_end, 2);
    let more = list.push(last);
    if at < list.len() {
        assert(more[at] == list[at]);
        if apply::joins(c, list[at]) {
            run_kept(list, last, c, at + 1);
        }
    } else {
        assert(more[at] == last);
    }
}

proof fn counts_from(
    s: StoreModel,
    list: Seq<CommandModel>,
    last: CommandModel,
    at: int,
    affected: u64,
    last_id: u64,
    defer: bool,
    orphans: u64,
    cx: ContextModel,
)
    requires
        0 <= at <= list.len(),
        stands_alone(last),
        !(last is CleanupOrphanStorage),
    ensures
        ({
            let (mid, r) = apply::applied_from(
                s,
                list,
                at,
                affected,
                last_id,
                defer,
                orphans,
                cx,
            );
            let (after, whole) = apply::applied_from(
                s,
                list.push(last),
                at,
                affected,
                last_id,
                defer,
                orphans,
                cx,
            );
            match r {
                Ok(w) => match apply::step(
                    mid,
                    last,
                    seq![apply::row_of(last)],
                    defer,
                    0,
                    cx,
                ).1 {
                    Ok(x) => whole == Ok::<WriteResult, Seq<char>>(
                        WriteResult {
                            affected_rows: w.affected_rows.saturating_add(x.0),
                            last_insert_id: if w.last_insert_id == 0 {
                                x.1
                            } else {
                                w.last_insert_id
                            },
                        },
                    ),
                    Err(e) => whole == Err::<WriteResult, Seq<char>>(e),
                },
                Err(e) => whole == Err::<WriteResult, Seq<char>>(e),
            }
        }),
    decreases list.len() - at,
{
    let more = list.push(last);
    if at < list.len() {
        let c = list[at];
        assert(more[at] == c);
        run_kept(list, last, c, at + 1);
        let end = apply::run_end(list, c, at + 1);
        assert(apply::rows_of(more, at, end) =~= apply::rows_of(list, at, end)) by {
            assert(more.subrange(at, end) =~= list.subrange(at, end));
        }
        let (after, r) = apply::step(s, c, apply::rows_of(list, at, end), defer, orphans, cx);
        if r is Ok {
            let (n, id) = r->Ok_0;
            counts_from(
                after,
                list,
                last,
                end,
                affected.saturating_add(n),
                if last_id == 0 {
                    id
                } else {
                    last_id
                },
                defer,
                if c is CleanupOrphanStorage {
                    0
                } else {
                    orphans
                },
                cx,
            );
        }
    } else {
        assert(more[at] == last);
        reveal(apply::step);
        reveal_with_fuel(apply::applied_from, 2);
        reveal_with_fuel(apply::run_end, 2);
        assert(apply::run_end(more, last, at + 1) == at + 1);
        assert(apply::rows_of(more, at, at + 1) =~= seq![apply::row_of(last)]) by {
            assert(more.subrange(at, at + 1) =~= seq![last]);
        }
    }
}

/// The counts of a batch add up, and the number it reports is the first that was generated. It
/// fails with the first command that fails.
pub proof fn counts_add_up(
    s: StoreModel,
    list: Seq<CommandModel>,
    last: CommandModel,
    defer: bool,
    orphans: u64,
    cx: ContextModel,
)
    requires
        stands_alone(last),
        !(last is CleanupOrphanStorage),
    ensures
        ({
            let (mid, r) = apply::applied_batch(s, list, defer, orphans, cx);
            let whole = apply::applied_batch(s, list.push(last), defer, orphans, cx).1;
            let x = apply::step(mid, last, seq![apply::row_of(last)], defer, 0, cx).1;
            &&& r matches Err(e) ==> whole == Err::<WriteResult, Seq<char>>(e)
            &&& r is Ok ==> (x matches Err(e) ==> whole == Err::<WriteResult, Seq<char>>(e))
            &&& r is Ok && x is Ok ==> (whole matches Ok(w) && (r->Ok_0.affected_rows + (
            x->Ok_0).0 <= u64::MAX ==> w.affected_rows == r->Ok_0.affected_rows + (x->Ok_0).0) && (
            r->Ok_0.last_insert_id != 0 ==> w.last_insert_id == r->Ok_0.last_insert_id) && (
            r->Ok_0.last_insert_id == 0 ==> w.last_insert_id == (x->Ok_0).1))
        }),
        apply::applied_batch(s, Seq::empty(), defer, orphans, cx) == (
            s,
            Ok::<WriteResult, Seq<char>>(WriteResult { affected_rows: 0, last_insert_id: 0 }),
        ),
{
    counts_from(s, list, last, 0, 0, 0, defer, orphans, cx);
}

proof fn run_of_inserts(list: Seq<CommandModel>, d: Seq<char>, t: Seq<char>, c: CommandModel, at: int)
    requires
        0 <= at <= list.len(),
        c matches CommandModel::Insert { database, table, .. } && database == d && table == t,
        forall|i: int|
            0 <= i < list.len() ==> ((#[trigger] list[i]) matches CommandModel::Insert {
                database,
                table,
                ..
            } && database == d && table == t),
    ensures
        apply::run_end(list, c, at) == list.len(),
    decreases list.len() - at,
{
    if at < list.len() {
        assert(apply::joins(c, list[at]));
        run_of_inserts(list, d, t, c, at + 1);
    }
}

/// INSERTs into one table are applied as one: all their rows, in their order.
pub proof fn inserts_into_one_table_are_applied_as_one(
    s: StoreModel,
    list: Seq<CommandModel>,
    d: Seq<char>,
    t: Seq<char>,
    db: DatabaseModel,
    defer: bool,
    orphans: u64,
    cx: ContextModel,
)
    requires
        list.len() > 0,
        list.len() <= u64::MAX,
        forall|i: int|
            0 <= i < list.len() ==> ((#[trigger] list[i]) matches CommandModel::Insert {
                database,
                table,
                ..
            } && database == d && table == t),
        store::database_of(s, d) == Some(db),
    ensures
        ({
            let rows = Seq::new(list.len(), |i: int| list[i]->Insert_row);
            let (after, r) = apply::applied_batch(s, list, defer, orphans, cx);
            match database::rows_inserted(db, t, rows, cx.moment) {
                Ok(x) => after == assoc::with_entry(s, d, x.0) && r == Ok::<WriteResult, Seq<char>>(
                    WriteResult { affected_rows: list.len() as u64, last_insert_id: x.1 },
                ),
                Err(e) => r == Err::<WriteResult, Seq<char>>(e),
            }
        }),
{
    reveal(apply::step);
    reveal(apply::database_step);
    let rows = Seq::new(list.len(), |i: int| list[i]->Insert_row);
    let c = list[0];
    run_of_inserts(list, d, t, c, 1);
    assert(apply::rows_of(list, 0, list.len() as int) =~= rows) by {
        assert(list.subrange(0, list.len() as int) =~= list);
        assert forall|i: int| 0 <= i < list.len() implies apply::rows_of(
            list,
            0,
            list.len() as int,
        )[i] == rows[i] by {
            assert(list[i] is Insert);
        }
    }
    reveal_with_fuel(apply::applied_from, 2);
}

// ---------------------------------------------------------------------------------------------
// Numbers
// ---------------------------------------------------------------------------------------------
/// A table never counts back: noting a number leaves it where it was or puts it further on, and
/// behind the number.
pub proof fn tables_never_count_back(t: TableModel, n: u64)
    ensures
        database::counted_to(t, None) == t,
        database::counted_to(t, Some(n)).next_id matches Some(next) && next >= n && (t.next_id matches Some(
            old_next,
        ) ==> next >= old_next && (next == n || next == old_next)),
        database::counted_to(t, Some(n)).rows() == t.rows(),
        database::counted_to(t, Some(n)).schema == t.schema,
{
}

/// Emptying a table starts its numbers anew; other tables go on counting.
pub proof fn emptied_tables_count_from_the_start(
    db: DatabaseModel,
    name: Seq<char>,
    other: Seq<char>,
)
    ensures
        ({
            let after = database::numbering_reset(db, name);
            &&& other != name ==> database::table_of(after, other) == database::table_of(db, other)
            &&& match database::table_of(db, name) {
                Some(t) => if sqltext::auto_increment(t.schema) is Some {
                    database::table_of(after, name) matches Some(u) && u.next_id == Some(1u64)
                        && u.rows() == t.rows() && u.schema == t.schema
                } else {
                    after == db
                },
                None => after == db,
            }
        }),
{
    match database::table_of(db, name) {
        Some(t) => {
            assoc::set_then_lookup(
                db.tables,
                name,
                TableModel { next_id: Some(1), ..t },
                other,
            );
        },
        None => {},
    }
}

/// Reserving rows numbers them, and the table counts on behind them, whether or not they can be
/// stored. No row is stored yet.
pub proof fn reserved_numbers_stay_taken(
    db: DatabaseModel,
    name: Seq<char>,
    rows: Seq<RowModel>,
    m: MomentModel,
    other: Seq<char>,
)
    requires
        database::table_of(db, name) is Some,
    ensures
        ({
            let t = database::table_of(db, name)->0;
            let (after, r) = database::rows_reserved(db, name, rows, m);
            match images::numbered(t.schema, t.next_id, rows) {
                Ok(n) => {
                    &&& database::table_of(after, name) matches Some(u) && u.rows() == t.rows() && (
                    n.next matches Some(x) ==> (u.next_id matches Some(y) && y >= x))
                    &&& other != name ==> database::table_of(after, other) == database::table_of(
                        db,
                        other,
                    )
                    &&& r matches Ok(out) ==> out.1 == n.last && images::materialized_all(
                        n.rows,
                        t.schema,
                        m,
                    ) == Ok::<Seq<RowModel>, Seq<char>>(out.0)
                },
                Err(e) => after == db && r is Err,
            }
        }),
{
    reveal(database::rows_reserved);
    let t = database::table_of(db, name)->0;
    match images::numbered(t.schema, t.next_id, rows) {
        Ok(n) => {
            assoc::set_then_lookup(db.tables, name, database::counted_to(t, n.next), other);
            match n.next {
                Some(x) => tables_never_count_back(t, x),
                None => {},
            }
        },
        Err(_) => {},
    }
}

// ---------------------------------------------------------------------------------------------
// Tables that are loaded, and databases that are to be written
// ---------------------------------------------------------------------------------------------
/// A table that is loaded has the rows of its pages; one in memory has none.
pub proof fn loaded_tables_have_their_rows(
    s: SchemaModel,
    listed: Seq<u32>,
    pages: Seq<RowPageModel>,
)
    ensures
        !sqltext::is_memory(s) ==> database::loaded(s, listed, pages).rows() == rowpages::flat(
            rowpages::rows_of(pages),
        ) && database::loaded(s, listed, pages).overlay is None,
        sqltext::is_memory(s) ==> database::loaded(s, listed, pages).rows()
            == Seq::<RowModel>::empty(),
        database::loaded(s, listed, pages).schema.columns == s.columns,
        database::loaded(s, listed, pages).schema.name == s.name,
{
}

proof fn named_once(names: Seq<Seq<char>>, name: Seq<char>, other: Seq<char>)
    requires
        assoc::ascending(names),
    ensures
        assoc::ascending(assoc::with_name(names, name)),
        assoc::with_name(names, name).contains(other) <==> names.contains(other) || other == name,
{
    assoc::with_name_ascending(names, name);
    assert(assoc::with_name(names, name).to_set().contains(other) == assoc::with_name(
        names,
        name,
    ).contains(other));
    assert(names.to_set().contains(other) == names.contains(other));
}

/// Whether a command changes rows that are kept on pages, in a database.
pub open spec fn dirties(s: StoreModel, c: CommandModel, d: Seq<char>) -> bool {
    commands::rows_target(c) matches Some((e, n)) && e == d && !(store::table_in(s, e, n) matches Some(
        t,
    ) && sqltext::is_memory(t.schema))
}

proof fn dirty_has(s: StoreModel, list: Seq<CommandModel>, at: int, names: Seq<Seq<char>>, d: Seq<char>)
    requires
        0 <= at <= list.len(),
        assoc::ascending(names),
    ensures
        apply::dirty_from(s, list, at, names).contains(d) <==> names.contains(d) || exists|i: int|
            at <= i < list.len() && dirties(s, #[trigger] list[i], d),
    decreases list.len() - at,
{
    if at < list.len() {
        let next = match commands::rows_target(list[at]) {
            Some((e, n)) => if store::table_in(s, e, n) matches Some(t) && sqltext::is_memory(
                t.schema,
            ) {
                names
            } else {
                assoc::with_name(names, e)
            },
            None => names,
        };
        match commands::rows_target(list[at]) {
            Some((e, n)) => named_once(names, e, d),
            None => {},
        }
        dirty_has(s, list, at + 1, next, d);
        assert(dirties(s, list[at], d) ==> exists|i: int|
            at <= i < list.len() && dirties(s, #[trigger] list[i], d));
    }
}

/// The databases to be written are those in which a command changes rows that are kept on pages.
pub proof fn changed_databases_are_written(s: StoreModel, list: Seq<CommandModel>, d: Seq<char>)
    ensures
        apply::dirty_from(s, list, 0, Seq::empty()).contains(d) <==> exists|i: int|
            0 <= i < list.len() && dirties(s, #[trigger] list[i], d),
{
    dirty_has(s, list, 0, Seq::empty(), d);
}

// ---------------------------------------------------------------------------------------------
// Where the walk of foreign keys starts
// ---------------------------------------------------------------------------------------------
/// An INSERT starts from its row behind those of the table, and takes no key from anybody.
pub proof fn an_insert_starts_from_its_row(
    rows: Seq<RowModel>,
    t: Seq<char>,
    s: SchemaModel,
    cx: ContextModel,
    d: Seq<char>,
    r: RowModel,
)
    ensures
        ({
            let c = CommandModel::Insert { database: d, table: t, row: r };
            &&& referential::source_step(c, rows, t, s, cx) is Ok <==> values::materialized(
                r,
                s,
                cx.moment,
            ) is Ok
            &&& referential::source_step(c, rows, t, s, cx) matches Ok(out) ==> (values::materialized(
                r,
                s,
                cx.moment,
            ) matches Ok(full) && out.rows == rows.push(full) && out.affected == 1
                && out.changes.len() == 0)
        }),
{
    reveal(referential::source_step);
}

/// A table image starts from its rows; each row that it no longer holds is deleted.
pub proof fn an_image_starts_from_what_is_gone(
    rows: Seq<RowModel>,
    t: Seq<char>,
    s: SchemaModel,
    cx: ContextModel,
    d: Seq<char>,
    given: Seq<RowModel>,
    affected: u64,
    r: RowModel,
)
    ensures
        ({
            let c = CommandModel::ReplaceRows {
                database: d,
                table: t,
                rows: given,
                affected_rows: affected,
            };
            referential::source_step(c, rows, t, s, cx) matches Ok(out) ==> {
                &&& images::materialized_all(given, s, cx.moment) == Ok::<Seq<RowModel>, Seq<char>>(
                    out.rows,
                )
                &&& out.affected == affected
                &&& out.changes.contains(ChangeModel { table: t, before: r, after: None })
                    <==> rows.contains(r) && !out.rows.contains(r)
            }
        }),
{
    reveal(referential::source_step);
    let c = CommandModel::ReplaceRows {
        database: d,
        table: t,
        rows: given,
        affected_rows: affected,
    };
    match referential::source_step(c, rows, t, s, cx) {
        Ok(out) => {
            let p = referential::absent_fn(out.rows);
            let gone = rows.filter(p);
            let change = ChangeModel { table: t, before: r, after: None };
            seqs::filter_holds(rows, p, r);
            assert(out.changes == referential::deletions(gone, t));
            if out.changes.contains(change) {
                let i = out.changes.index_of(change);
                assert(out.changes[i].before == gone[i]);
                assert(gone.contains(r));
            }
            if gone.contains(r) {
                let i = gone.index_of(r);
                assert(out.changes[i] == change);
            }
        },
        Err(_) => {},
    }
}

proof fn first_conflict(rows: Seq<RowModel>, r: RowModel, s: SchemaModel, at: int)
    requires
        0 <= at <= rows.len(),
    ensures
        dmlcheck::conflicting_from(rows, r, s, at) matches Some(i) ==> at <= i < rows.len()
            && commands::conflict(rows[i], r, s) && forall|j: int|
            at <= j < i ==> !commands::conflict(#[trigger] rows[j], r, s),
        dmlcheck::conflicting_from(rows, r, s, at) is None ==> forall|j: int|
            at <= j < rows.len() ==> !commands::conflict(#[trigger] rows[j], r, s),
    decreases rows.len() - at,
{
    if at < rows.len() && !commands::conflict(rows[at], r, s) {
        first_conflict(rows, r, s, at + 1);
    }
}

/// An upsert starts from its row where none stands in its way; otherwise, unless it ignores that,
/// from the change of the first row that does, and only where that row does change.
pub proof fn an_upsert_starts_from_what_is_in_its_way(
    rows: Seq<RowModel>,
    t: Seq<char>,
    s: SchemaModel,
    cx: ContextModel,
    r: RowModel,
    columns: Seq<Seq<char>>,
    ignore: bool,
    full: RowModel,
    out: SourceModel,
    i: int,
)
    requires
        values::materialized(r, s, cx.moment) == Ok::<RowModel, Seq<char>>(full),
        referential::upsert_source(rows, t, s, r, columns, ignore, cx) == Ok::<
            SourceModel,
            Seq<char>,
        >(out),
    ensures
        (forall|j: int| 0 <= j < rows.len() ==> !commands::conflict(#[trigger] rows[j], full, s))
            ==> out.rows == rows.push(full) && out.affected == 1 && out.changes.len() == 0,
        0 <= i < rows.len() && commands::conflict(rows[i], full, s) && (forall|j: int|
            0 <= j < i ==> !commands::conflict(#[trigger] rows[j], full, s)) ==> {
            &&& ignore ==> out.rows == rows && out.affected == 0 && out.changes.len() == 0
            &&& !ignore ==> (values::materialized(
                images::taken_from(rows[i], full, columns, 0),
                s,
                cx.moment,
            ) matches Ok(after) && if after == rows[i] {
                out.rows == rows && out.affected == 0 && out.changes.len() == 0
            } else {
                out.rows == rows.update(i, after) && out.affected == 2 && out.changes == seq![
                    ChangeModel { table: t, before: rows[i], after: Some(after) },
                ]
            })
        },
{
    first_conflict(rows, full, s, 0);
}

} // verus!
