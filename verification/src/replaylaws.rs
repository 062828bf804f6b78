//! What a replay brings back after a crash.
use crate::alter;
use crate::altered;
use crate::apply;
use crate::assoc;
use crate::batch;
use crate::commands;
use crate::commands::{CommandModel, WriteResult};
use crate::database;
use crate::database::DatabaseModel;
use crate::images;
use crate::predicate;
use crate::predicate::{ContextModel, PredicateModel};
use crate::redo;
use crate::replay;
use crate::replay::ReplayModel;
use crate::row::RowModel;
use crate::rowlaws;
use crate::rowlaws::{agree, carries, same_cells};
use crate::rowpages;
use crate::schema::{MomentModel, SchemaModel, TableEngine};
use crate::sqltext;
use crate::store;
use crate::store::StoreModel;
use crate::table;
use crate::table::TableModel;
use crate::tablelaws;
use crate::validate;
use crate::values;
use vstd::prelude::*;

verus! {

/// The schema of a table in a catalog.
pub open spec fn schema_of(state: ReplayModel, d: Seq<char>, t: Seq<char>) -> Option<SchemaModel> {
    match assoc::lookup(state.catalog, d) {
        Some(tables) => assoc::lookup(tables, t),
        None => None,
    }
}

/// Whether the rows of a table outlast a restart.
pub open spec fn outlasts(s: SchemaModel) -> bool {
    !sqltext::is_memory(s)
}

/// Whether a stored row of a table has a unique key of a row.
pub open spec fn key_is_stored(
    actual: StoreModel,
    d: Seq<char>,
    t: Seq<char>,
    r: RowModel,
    s: SchemaModel,
) -> bool {
    store::table_in(actual, d, t) matches Some(found) && exists|i: int|
        0 <= i < found.rows().len() && commands::conflict(#[trigger] found.rows()[i], r, s)
}

/// A logged change of rows is replayed where its table is there and its rows outlast a restart,
/// and skipped elsewhere; an INSERT only where no stored row has one of its keys. It leaves the
/// catalog.
pub proof fn logged_changes_of_rows_are_replayed(
    state: ReplayModel,
    c: CommandModel,
    actual: StoreModel,
)
    requires
        commands::rows_target(c) is Some,
    ensures
        ({
            let (d, t) = commands::rows_target(c)->0;
            let there = schema_of(state, d, t) matches Some(s) && outlasts(s);
            let keep = if c is Insert {
                there && !key_is_stored(
                    actual,
                    d,
                    t,
                    c->Insert_row,
                    schema_of(state, d, t)->0,
                )
            } else {
                there
            };
            replay::replay_step(state, c, actual) == Ok::<(ReplayModel, bool), Seq<char>>(
                (state, keep),
            )
        }),
{
    reveal(replay::replay_step);
}

/// The commands on rows: these, and no others, have a table whose rows they change.
pub proof fn commands_on_rows(c: CommandModel)
    ensures
        commands::rows_target(c) is Some <==> c is Insert || c is Upsert || c is Update || c
            is ExpressionUpdate || c is ReplaceRows || c is Delete,
        c matches CommandModel::Delete { database, table, .. } ==> commands::rows_target(c) == Some(
            (database, table),
        ),
        c matches CommandModel::Update { database, table, .. } ==> commands::rows_target(c) == Some(
            (database, table),
        ),
        c matches CommandModel::Insert { database, table, .. } ==> commands::rows_target(c) == Some(
            (database, table),
        ),
        c matches CommandModel::Upsert { database, table, .. } ==> commands::rows_target(c) == Some(
            (database, table),
        ),
        c matches CommandModel::ReplaceRows { database, table, .. } ==> commands::rows_target(c)
            == Some((database, table)),
        c matches CommandModel::ExpressionUpdate { database, table, .. } ==> commands::rows_target(
            c,
        ) == Some((database, table)),
{
}

/// A logged definition is replayed where it is not yet in effect: a database or a table that is to
/// be made and is missing, or to be dropped and is there, an operation on a table that was not
/// applied. The catalog then has what it defines.
pub proof fn logged_definitions_are_replayed(
    state: ReplayModel,
    actual: StoreModel,
    d: Seq<char>,
    s: SchemaModel,
    t: Seq<char>,
    op: alter::OperationModel,
)
    ensures
        ({
            let made = replay::replay_step(state, CommandModel::CreateDatabase(d), actual);
            made matches Ok((next, keep)) && keep == (assoc::lookup(state.catalog, d) is None)
                && assoc::lookup(next.catalog, d) is Some
        }),
        ({
            let dropped = replay::replay_step(state, CommandModel::DropDatabase(d), actual);
            dropped matches Ok((next, keep)) && keep == (assoc::lookup(state.catalog, d) is Some)
                && assoc::lookup(next.catalog, d) is None
        }),
        ({
            let c = CommandModel::CreateTable { database: d, schema: s };
            replay::replay_step(state, c, actual) matches Ok((next, keep)) && keep == (assoc::lookup(
                state.catalog,
                d,
            ) is Some && schema_of(state, d, s.name) is None) && (keep ==> schema_of(
                next,
                d,
                s.name,
            ) == Some(s)) && (!keep ==> next == state)
        }),
        ({
            let c = CommandModel::DropTable { database: d, table: t };
            replay::replay_step(state, c, actual) matches Ok((next, keep)) && keep == (schema_of(
                state,
                d,
                t,
            ) is Some) && schema_of(next, d, t) is None
        }),
        ({
            let c = CommandModel::AlterTable { database: d, table: t, operation: op };
            match schema_of(state, d, t) {
                None => replay::replay_step(state, c, actual) == Ok::<
                    (ReplayModel, bool),
                    Seq<char>,
                >((state, false)),
                Some(before) => if altered::applied(before, op) {
                    replay::replay_step(state, c, actual) == Ok::<(ReplayModel, bool), Seq<char>>(
                        (state, false),
                    )
                } else {
                    match alter::altered(before, op) {
                        Err(e) => replay::replay_step(state, c, actual) is Err,
                        Ok((after, _)) => replay::replay_step(state, c, actual) matches Ok((
                            next,
                            keep,
                        )) && keep && schema_of(next, d, t) == Some(after),
                    }
                },
            }
        }),
{
    reveal(replay::replay_step);
    assoc::set_then_lookup(state.catalog, d, Seq::empty(), d);
    assoc::remove_then_lookup(state.catalog, d, d);
    match assoc::lookup(state.catalog, d) {
        None => {},
        Some(tables) => {
            let more = assoc::with_entry(tables, s.name, s);
            assoc::set_then_lookup(state.catalog, d, more, d);
            assoc::set_then_lookup(tables, s.name, s, s.name);
            let fewer = assoc::without_entry(tables, t);
            assoc::set_then_lookup(state.catalog, d, fewer, d);
            assoc::remove_then_lookup(tables, t, t);
            match assoc::lookup(tables, t) {
                None => {},
                Some(before) => {
                    if alter::altered(before, op) is Ok {
                        let after = (alter::altered(before, op)->Ok_0).0;
                        let changed = assoc::with_entry(tables, t, after);
                        assoc::set_then_lookup(state.catalog, d, changed, d);
                        assoc::set_then_lookup(tables, t, after, t);
                    }
                },
            }
        },
    }
}

// ---------------------------------------------------------------------------------------------
// Batches of changes to rows
// ---------------------------------------------------------------------------------------------
/// Whether a logged change of rows is still to be applied to a store: its table is there, its rows
/// outlast a restart, and, for an INSERT, no stored row has one of its keys.
pub open spec fn outstanding(s: StoreModel, c: CommandModel) -> bool {
    commands::rows_target(c) matches Some((d, t)) && store::table_in(s, d, t) matches Some(found)
        && outlasts(found.schema) && (c matches CommandModel::Insert { row, .. } ==> !key_is_stored(
        s,
        d,
        t,
        row,
        found.schema,
    ))
}

proof fn all_left(s: StoreModel, list: Seq<CommandModel>, at: int)
    requires
        0 <= at <= list.len(),
        forall|i: int| 0 <= i < list.len() ==> outstanding(s, #[trigger] list[i]),
    ensures
        replay::normalized_from(redo::start(s), list, s, at, list.take(at)) == Ok::<
            Seq<CommandModel>,
            Seq<char>,
        >(list),
    decreases list.len() - at,
{
    if at < list.len() {
        let c = list[at];
        assert(outstanding(s, list[at]));
        let (d, t) = commands::rows_target(c)->0;
        redo::catalog_holds(s, d, t);
        logged_changes_of_rows_are_replayed(redo::start(s), c, s);
        assert(list.take(at).push(c) =~= list.take(at + 1));
        all_left(s, list, at + 1);
    } else {
        assert(list.take(at) =~= list);
    }
}

/// A batch of changes that are still to be applied is replayed whole.
pub proof fn outstanding_batches_are_replayed_whole(s: StoreModel, list: Seq<CommandModel>)
    requires
        forall|i: int| 0 <= i < list.len() ==> outstanding(s, #[trigger] list[i]),
    ensures
        replay::normalized(list, s) == Ok::<Seq<CommandModel>, Seq<char>>(list),
{
    all_left(s, list, 0);
    assert(list.take(0) =~= Seq::empty());
}

// ---------------------------------------------------------------------------------------------
// Checkpoints
// ---------------------------------------------------------------------------------------------
/// Whether rows are the same but for their ids: as many, in the same order, each with what the
/// other says; where a row has all columns of its table, the two have the same cells.
pub open spec fn alike(a: Seq<RowModel>, b: Seq<RowModel>, s: SchemaModel) -> bool {
    &&& a.len() == b.len()
    &&& forall|i: int|
        0 <= i < a.len() ==> carries(#[trigger] a[i], b[i]) && (rowlaws::complete(a[i], s)
            ==> same_cells(a[i], b[i]))
}

/// Whether a table is another but for the ids of its rows and where they stand.
pub open spec fn same_table(a: TableModel, b: TableModel) -> bool {
    alike(a.rows(), b.rows(), a.schema) && tablelaws::same_schema(a.schema, b.schema)
}

proof fn same_table_reflexive(a: TableModel)
    ensures
        same_table(a, a),
{
}

proof fn alike_trans(a: Seq<RowModel>, b: Seq<RowModel>, c: Seq<RowModel>, s: SchemaModel, t: SchemaModel)
    requires
        alike(a, b, s),
        alike(b, c, t),
        tablelaws::same_schema(s, t),
    ensures
        alike(a, c, s),
{
    assert forall|i: int| 0 <= i < a.len() implies carries(#[trigger] a[i], c[i]) && (
    rowlaws::complete(a[i], s) ==> same_cells(a[i], c[i])) by {
        assert(carries(a[i], b[i]));
        assert(carries(b[i], c[i]));
        assert forall|name: Seq<char>| #[trigger] a[i].contains(name) implies agree(
            a[i],
            c[i],
            name,
        ) by {
            assert(agree(a[i], b[i], name));
            assert(b[i].contains(name));
        }
        if rowlaws::complete(a[i], s) {
            assert(rowlaws::complete(b[i], t)) by {
                assert forall|k: int| 0 <= k < t.columns.len() implies b[i].contains(
                    (#[trigger] t.columns[k]).name,
                ) by {
                    assert(a[i].contains(s.columns[k].name));
                }
            }
        }
    }
}

proof fn replaced_pages(t: TableModel, rows: Seq<RowModel>, m: MomentModel)
    requires
        !sqltext::is_memory(t.schema),
        table::replaced(t, rows, m) is Ok,
    ensures
        alike(
            rows,
            rowpages::flat(table::replaced(t, rows, m)->Ok_0.groups()),
            t.schema,
        ),
        tablelaws::same_schema(t.schema, table::replaced(t, rows, m)->Ok_0.schema),
{
    let bare = TableModel { overlay: None, ..t };
    assert(table::replaced(bare, rows, m) is Ok);
    tablelaws::replaced_holds(bare, rows, m);
    let after = table::replaced(bare, rows, m)->Ok_0;
    let stored = after.rows();
    assert(stored == rowpages::flat(table::replaced(t, rows, m)->Ok_0.groups()));
    assert forall|i: int| 0 <= i < rows.len() implies carries(#[trigger] rows[i], stored[i]) && (
    rowlaws::complete(rows[i], t.schema) ==> same_cells(rows[i], stored[i])) by {
        let full = values::materialized(rows[i], t.schema, m)->Ok_0;
        assert(same_cells(stored[i], full));
        rowlaws::a_stored_row_carries_its_values(rows[i], t.schema, m);
        tablelaws::carried(rows[i], full, stored[i]);
    }
}

/// A table is the same as itself, and what is the same as the same is the same.
pub proof fn tables_are_themselves(db: DatabaseModel, name: Seq<char>)
    ensures
        database::table_of(db, name) matches Some(t) ==> same_table(t, t),
{
    match database::table_of(db, name) {
        Some(t) => same_table_reflexive(t),
        None => {},
    }
}

pub proof fn same_tables_follow(a: TableModel, b: TableModel, c: TableModel)
    requires
        same_table(a, b),
        same_table(b, c),
    ensures
        same_table(a, c),
{
    alike_trans(a.rows(), b.rows(), c.rows(), a.schema, b.schema);
}

/// A checkpoint of a table puts its rows on pages: it has the same rows as before, but for their
/// ids, and every other table is as it was.
pub proof fn checkpoints_keep_rows(
    db: DatabaseModel,
    name: Seq<char>,
    m: MomentModel,
    other: Seq<char>,
)
    requires
        database::checkpointed(db, name, m) is Ok,
    ensures
        match (
            database::table_of(db, other),
            database::table_of(database::checkpointed(db, name, m)->Ok_0, other),
        ) {
            (Some(a), Some(b)) => same_table(a, b),
            (None, None) => true,
            _ => false,
        },
        database::table_of(database::checkpointed(db, name, m)->Ok_0, name) matches Some(b)
            ==> sqltext::is_memory(b.schema) || b.overlay is None,
{
    reveal(database::checkpointed);
    match database::table_of(db, name) {
        None => {
            if database::table_of(db, other) is Some {
                same_table_reflexive(database::table_of(db, other)->0);
            }
        },
        Some(t) => {
            if database::table_of(db, other) is Some {
                same_table_reflexive(database::table_of(db, other)->0);
            }
            if t.overlay is Some && !sqltext::is_memory(t.schema) {
                reveal(database::rows_replaced);
                let rows = t.overlay->0;
                let next = table::replaced(t, rows, m)->Ok_0;
                replaced_pages(t, rows, m);
                let first = database::with_table(db, name, next);
                assoc::set_then_lookup(db.tables, name, next, name);
                assoc::set_then_lookup(db.tables, name, next, other);
                let counted = database::all_recounted(first);
                tablelaws::recounting_keeps_tables(first, name);
                tablelaws::recounting_keeps_tables(first, other);
                assert(database::rows_replaced(db, name, rows, m) == Ok::<
                    DatabaseModel,
                    Seq<char>,
                >(counted));
                let staged = database::table_of(counted, name)->0;
                let bare = TableModel { overlay: None, ..staged };
                let second = database::with_table(counted, name, bare);
                assoc::set_then_lookup(counted.tables, name, bare, name);
                assoc::set_then_lookup(counted.tables, name, bare, other);
                tablelaws::recounting_keeps_tables(second, name);
                tablelaws::recounting_keeps_tables(second, other);
                assert(bare.rows() == rowpages::flat(next.groups()));
                let last = database::table_of(database::all_recounted(second), name)->0;
                assert(last.rows() == bare.rows());
                assert(t.rows() == rows);
                assert(same_table(t, last));
            }
        },
    }
}

/// Putting tables on their pages leaves every table of a store with the rows that it had, but for
/// their ids.
pub proof fn checkpointing_keeps_all_rows(
    s: StoreModel,
    tables: Seq<(Seq<char>, Seq<char>)>,
    cx: ContextModel,
    at: int,
    d: Seq<char>,
    t: Seq<char>,
)
    requires
        0 <= at <= tables.len(),
        replay::checkpointed_from(s, tables, cx, at).1 is Ok,
    ensures
        match (
            store::table_in(s, d, t),
            store::table_in(replay::checkpointed_from(s, tables, cx, at).0, d, t),
        ) {
            (Some(a), Some(b)) => same_table(a, b),
            (None, None) => true,
            _ => false,
        },
    decreases tables.len() - at,
{
    if store::table_in(s, d, t) is Some {
        same_table_reflexive(store::table_in(s, d, t)->0);
    }
    if at < tables.len() {
        match store::database_of(s, tables[at].0) {
            None => checkpointing_keeps_all_rows(s, tables, cx, at + 1, d, t),
            Some(db) => {
                let after = database::checkpointed(db, tables[at].1, cx.moment)->Ok_0;
                let next = assoc::with_entry(s, tables[at].0, after);
                checkpoints_keep_rows(db, tables[at].1, cx.moment, t);
                assoc::set_then_lookup(s, tables[at].0, after, d);
                checkpointing_keeps_all_rows(next, tables, cx, at + 1, d, t);
                if store::table_in(s, d, t) is Some {
                    let a = store::table_in(s, d, t)->0;
                    let b = store::table_in(next, d, t)->0;
                    let c = store::table_in(
                        replay::checkpointed_from(s, tables, cx, at).0,
                        d,
                        t,
                    )->0;
                    assert(same_table(a, b));
                    alike_trans(a.rows(), b.rows(), c.rows(), a.schema, b.schema);
                }
            },
        }
    }
}

// ---------------------------------------------------------------------------------------------
// Replaying
// ---------------------------------------------------------------------------------------------
/// Replaying a logged batch that is still to be applied gives every table the rows that applying
/// the batch gives it, but for their ids.
pub proof fn replaying_applies_the_batch(
    s: StoreModel,
    list: Seq<CommandModel>,
    cx: ContextModel,
    d: Seq<char>,
    t: Seq<char>,
)
    requires
        forall|i: int| 0 <= i < list.len() ==> outstanding(s, #[trigger] list[i]),
        replay::batch_replayed(s, list, cx).1 is Ok,
    ensures
        apply::applied_batch(s, list, true, 0, cx).1 is Ok,
        match (
            store::table_in(apply::applied_batch(s, list, true, 0, cx).0, d, t),
            store::table_in(replay::batch_replayed(s, list, cx).0, d, t),
        ) {
            (Some(a), Some(b)) => same_table(a, b),
            (None, None) => true,
            _ => false,
        },
{
    reveal(replay::batch_replayed);
    outstanding_batches_are_replayed_whole(s, list);
    let after = apply::applied_batch(s, list, true, 0, cx).0;
    if list.len() == 0 {
        if store::table_in(s, d, t) is Some {
            same_table_reflexive(store::table_in(s, d, t)->0);
        }
    } else {
        checkpointing_keeps_all_rows(
            after,
            replay::changed_tables_from(list, 0, Seq::empty()),
            cx,
            0,
            d,
            t,
        );
    }
}

/// A replay is refused only where the batch itself is: the batch is checked as it would be
/// before it was logged, applied, and put on pages, and what fails is reported.
pub proof fn a_replay_fails_as_the_batch_does(
    s: StoreModel,
    list: Seq<CommandModel>,
    cx: ContextModel,
)
    requires
        list.len() > 0,
        forall|i: int| 0 <= i < list.len() ==> outstanding(s, #[trigger] list[i]),
    ensures
        batch::refused(list, s, cx) is Some ==> replay::batch_replayed(s, list, cx).1 is Err
            && replay::batch_replayed(s, list, cx).0 == s,
        batch::refused(list, s, cx) is None && apply::applied_batch(s, list, true, 0, cx).1 is Err
            ==> replay::batch_replayed(s, list, cx).1 is Err,
{
    reveal(replay::batch_replayed);
    outstanding_batches_are_replayed_whole(s, list);
}

proof fn run_before_a_delete(list: Seq<CommandModel>, last: CommandModel, c: CommandModel, at: int)
    requires
        0 <= at <= list.len(),
        last is Delete,
    ensures
        apply::run_end(list.push(last), c, at) == apply::run_end(list, c, at),
        at <= apply::run_end(list, c, at) <= list.len(),
    decreases list.len() - at,
{
    reveal_with_fuel(apply::run_end, 2);
    let more = list.push(last);
    if at < list.len() {
        assert(more[at] == list[at]);
        if apply::joins(c, list[at]) {
            run_before_a_delete(list, last, c, at + 1);
        }
    } else {
        assert(more[at] == last);
    }
}

proof fn applied_then_deleted(
    s: StoreModel,
    list: Seq<CommandModel>,
    last: CommandModel,
    at: int,
    affected: u64,
    last_id: u64,
    orphans: u64,
    cx: ContextModel,
)
    requires
        0 <= at <= list.len(),
        last is Delete,
        apply::applied_from(s, list.push(last), at, affected, last_id, true, orphans, cx).1 is Ok,
    ensures
        apply::applied_from(s, list, at, affected, last_id, true, orphans, cx).1 is Ok,
        ({
            let mid = apply::applied_from(s, list, at, affected, last_id, true, orphans, cx).0;
            let d = last->Delete_database;
            let db = store::database_of(mid, d);
            &&& db is Some
            &&& database::rows_deleted(
                db->0,
                last->Delete_table,
                last->Delete_filter,
                true,
                cx,
            ) is Ok
            &&& apply::applied_from(
                s,
                list.push(last),
                at,
                affected,
                last_id,
                true,
                orphans,
                cx,
            ).0 == assoc::with_entry(
                mid,
                d,
                (database::rows_deleted(
                    db->0,
                    last->Delete_table,
                    last->Delete_filter,
                    true,
                    cx,
                )->Ok_0).0,
            )
        }),
    decreases list.len() - at,
{
    let more = list.push(last);
    if at < list.len() {
        let c = list[at];
        assert(more[at] == c);
        run_before_a_delete(list, last, c, at + 1);
        let end = apply::run_end(list, c, at + 1);
        assert(apply::rows_of(more, at, end) =~= apply::rows_of(list, at, end)) by {
            assert(more.subrange(at, end) =~= list.subrange(at, end));
        }
        let (after, r) = apply::step(s, c, apply::rows_of(list, at, end), true, orphans, cx);
        let (n, id) = r->Ok_0;
        applied_then_deleted(
            after,
            list,
            last,
            end,
            affected.saturating_add(n),
            if last_id == 0 {
                id
            } else {
                last_id
            },
            if c is CleanupOrphanStorage {
                0
            } else {
                orphans
            },
            cx,
        );
    } else {
        assert(more[at] == last);
        reveal(apply::step);
        reveal(apply::database_step);
        reveal_with_fuel(apply::applied_from, 2);
        reveal_with_fuel(apply::run_end, 2);
        let end = apply::run_end(more, last, at + 1);
        assert(end == at + 1);
    }
}

/// After the replay of a batch that ends in a DELETE, no row of the table passes the DELETE's
/// filter, and the rows are those that did not pass it before the DELETE, in their order.
pub proof fn a_replayed_delete_deletes(
    s: StoreModel,
    list: Seq<CommandModel>,
    d: Seq<char>,
    t: Seq<char>,
    filter: Option<PredicateModel>,
    cx: ContextModel,
    i: int,
)
    requires
        ({
            let whole = list.push(
                CommandModel::Delete { database: d, table: t, filter: filter },
            );
            let mid = apply::applied_batch(s, list, true, 0, cx).0;
            &&& forall|k: int| 0 <= k < whole.len() ==> outstanding(s, #[trigger] whole[k])
            &&& replay::batch_replayed(s, whole, cx).1 is Ok
            &&& store::table_in(mid, d, t) matches Some(u) && tablelaws::settled(u) && u.rows().len()
                <= u64::MAX && 0 <= i < tablelaws::spared(u.rows(), filter, cx).len()
        }),
    ensures
        ({
            let whole = list.push(
                CommandModel::Delete { database: d, table: t, filter: filter },
            );
            let mid = apply::applied_batch(s, list, true, 0, cx).0;
            let left = tablelaws::spared(store::table_in(mid, d, t)->0.rows(), filter, cx);
            let after = replay::batch_replayed(s, whole, cx).0;
            store::table_in(after, d, t) matches Some(b) && b.rows().len() == left.len()
                && same_cells(left[i], b.rows()[i]) && !predicate::passes(filter, b.rows()[i], cx)
        }),
{
    let last = CommandModel::Delete { database: d, table: t, filter: filter };
    let whole = list.push(last);
    let mid = apply::applied_batch(s, list, true, 0, cx).0;
    replaying_applies_the_batch(s, whole, cx, d, t);
    applied_then_deleted(s, list, last, 0, 0, 0, 0, cx);
    let db = store::database_of(mid, d)->0;
    let u = database::table_of(db, t)->0;
    tablelaws::deletes_take_what_passes(db, t, filter, true, cx);
    let (after_db, _) = database::rows_deleted(db, t, filter, true, cx)->Ok_0;
    assoc::set_then_lookup(mid, d, after_db, d);
    let left = tablelaws::spared(u.rows(), filter, cx);
    let a = database::table_of(after_db, t)->0;
    let b = store::table_in(replay::batch_replayed(s, whole, cx).0, d, t)->0;
    assert(same_cells(left[i], a.rows()[i]));
    assert(carries(a.rows()[i], b.rows()[i]));
    tablelaws::deletes_keep_the_schema(db, t, filter, true, cx);
    assert(rowlaws::complete(a.rows()[i], a.schema)) by {
        tablelaws::spared_spared(u.rows(), filter, cx, i);
        let k = choose|k: int| 0 <= k < u.rows().len() && u.rows()[k] == left[i];
        assert(rowlaws::complete(u.rows()[k], u.schema));
        assert forall|n: int| 0 <= n < a.schema.columns.len() implies a.rows()[i].contains(
            (#[trigger] a.schema.columns[n]).name,
        ) by {
            assert(left[i].contains(u.schema.columns[n].name));
            tablelaws::same_cells_agree(left[i], a.rows()[i], u.schema.columns[n].name);
        }
    }
    rowlaws::filters_read_cells(filter, a.rows()[i], b.rows()[i], cx);
}

} // verus!
