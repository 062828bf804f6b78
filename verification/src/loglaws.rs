//! What the log brings back, and what a command does to a store.
use crate::apply;
use crate::assoc;
use crate::commands;
use crate::commands::CommandModel;
use crate::database;
use crate::database::DatabaseModel;
use crate::images;
use crate::predicate::ContextModel;
use crate::replay;
use crate::row::RowModel;
use crate::schema::SchemaModel;
use crate::store;
use crate::store::StoreModel;
use crate::table;
use crate::table::TableModel;
use crate::tablelaws;
use crate::wal;
use crate::wal::{WalEntry, WalRecordType};
use vstd::prelude::*;

verus! {

// ---------------------------------------------------------------------------------------------
// The log
// ---------------------------------------------------------------------------------------------
/// A logged batch is replayed where its commit is logged and it was not applied; a logged group,
/// where it was not applied. Nothing else is.
pub proof fn committed_entries_are_replayed(list: Seq<WalEntry>, e: WalEntry, c: int, a: int)
    ensures
        (forall|i: int|
            0 <= i < list.len() ==> !((#[trigger] list[i]).record_type == WalRecordType::Applied
                && list[i].tx_id == e.tx_id)) && (e.record_type == WalRecordType::GroupCommit || (
        e.record_type == WalRecordType::Batch && 0 <= c < list.len() && list[c].record_type
            == WalRecordType::Commit && list[c].tx_id == e.tx_id)) ==> wal::replayed(list, e),
        0 <= a < list.len() && list[a].record_type == WalRecordType::Applied && list[a].tx_id
            == e.tx_id ==> !wal::replayed(list, e),
        e.record_type == WalRecordType::Batch && (forall|i: int|
            0 <= i < list.len() ==> !((#[trigger] list[i]).record_type == WalRecordType::Commit
                && list[i].tx_id == e.tx_id)) ==> !wal::replayed(list, e),
        e.record_type != WalRecordType::Batch && e.record_type != WalRecordType::GroupCommit
            ==> !wal::replayed(list, e),
{
}

/// The commands of a group are those of its transactions, one transaction after the other.
pub proof fn a_group_is_its_transactions(
    list: Seq<Seq<CommandModel>>,
    at: int,
    done: Seq<CommandModel>,
)
    requires
        0 <= at <= list.len(),
    ensures
        wal::group_commands(list, at, done) == done + list.skip(at).flatten(),
    decreases list.len() - at,
{
    if at < list.len() {
        a_group_is_its_transactions(list, at + 1, done + list[at]);
        assert(list.skip(at).drop_first() =~= list.skip(at + 1));
        assert(list.skip(at).first() == list[at]);
        assert((done + list[at]) + list.skip(at + 1).flatten() =~= done + (list[at] + list.skip(
            at + 1,
        ).flatten()));
    } else {
        assert(list.skip(at) =~= Seq::empty());
        assert(done + Seq::<CommandModel>::empty() =~= done);
    }
}

/// Logged batches are replayed in their order: those behind a place, on what those before it left.
/// Where all succeed, all count; where one fails, those before it count, and it ends the replay.
pub proof fn batches_are_replayed_in_order(
    s: StoreModel,
    batches: Seq<Seq<CommandModel>>,
    cx: ContextModel,
    at: int,
)
    requires
        0 <= at <= batches.len(),
    ensures
        at == batches.len() ==> wal::replayed_from(s, batches, cx, at) == (
            s,
            at,
            Ok::<(), Seq<char>>(()),
        ),
        at < batches.len() && replay::batch_replayed(s, batches[at], cx).1 is Ok ==> wal::replayed_from(
            s,
            batches,
            cx,
            at,
        ) == wal::replayed_from(
            replay::batch_replayed(s, batches[at], cx).0,
            batches,
            cx,
            at + 1,
        ),
        at < batches.len() && replay::batch_replayed(s, batches[at], cx).1 is Err ==> {
            let (_, n, r) = wal::replayed_from(s, batches, cx, at);
            n == at && r is Err
        },
        wal::replayed_from(s, batches, cx, at).2 is Ok ==> wal::replayed_from(s, batches, cx, at).1
            == batches.len(),
        at <= wal::replayed_from(s, batches, cx, at).1 <= batches.len(),
    decreases batches.len() - at,
{
    if at < batches.len() && replay::batch_replayed(s, batches[at], cx).1 is Ok {
        batches_are_replayed_in_order(
            replay::batch_replayed(s, batches[at], cx).0,
            batches,
            cx,
            at + 1,
        );
    }
}

// ---------------------------------------------------------------------------------------------
// Commands
// ---------------------------------------------------------------------------------------------
/// Whether a table is in two stores with the same rows and the same schema, or in neither.
pub open spec fn same_in(a: StoreModel, b: StoreModel, d: Seq<char>, t: Seq<char>) -> bool {
    match (store::table_in(a, d, t), store::table_in(b, d, t)) {
        (Some(x), Some(y)) => x.rows() == y.rows() && x.schema == y.schema,
        (None, None) => true,
        _ => false,
    }
}

/// Whether a table is in two databases with the same rows and the same schema, or in neither.
pub open spec fn same_of(a: DatabaseModel, b: DatabaseModel, t: Seq<char>) -> bool {
    match (database::table_of(a, t), database::table_of(b, t)) {
        (Some(x), Some(y)) => x.rows() == y.rows() && x.schema == y.schema,
        (None, None) => true,
        _ => false,
    }
}

/// A change of rows leaves the rows and the schema of every table but its own.
pub proof fn changes_touch_their_table_only(
    db: DatabaseModel,
    c: CommandModel,
    rows: Seq<RowModel>,
    defer: bool,
    cx: ContextModel,
    other: Seq<char>,
)
    requires
        commands::rows_target(c) is Some,
        other != (commands::rows_target(c)->0).1,
    ensures
        same_of(db, apply::database_step(db, c, rows, defer, cx).0, other),
{
    reveal(apply::database_step);
    let name = (commands::rows_target(c)->0).1;
    match c {
        CommandModel::Insert { .. } => {
            insert_leaves(db, name, rows, cx, other);
        },
        CommandModel::Upsert { update_columns, ignore, .. } => {
            reveal(database::rows_upserted);
            match database::rows_upserted(
                db,
                name,
                rows,
                update_columns,
                ignore,
                defer,
                cx.moment,
            ) {
                Err(_) => {},
                Ok(_) => {
                    let t = database::table_of(db, name)->0;
                    let n = images::numbered(t.schema, t.next_id, rows)->Ok_0;
                    let full = images::materialized_all(n.rows, t.schema, cx.moment)->Ok_0;
                    let u = images::upserted(
                        t.rows(),
                        full,
                        t.schema,
                        update_columns,
                        ignore,
                    )->Ok_0;
                    let between = if u.changed {
                        database::other_tables_keep_rows(
                            db,
                            name,
                            u.rows,
                            defer,
                            cx.moment,
                            other,
                        );
                        database::rows_written(db, name, u.rows, defer, cx.moment)->Ok_0
                    } else {
                        insert_leaves(db, name, u.inserts, cx, other);
                        (database::rows_inserted(db, name, u.inserts, cx.moment)->Ok_0).0
                    };
                    match (n.next, database::table_of(between, name)) {
                        (Some(_), Some(x)) => {
                            assoc::set_then_lookup(
                                between.tables,
                                name,
                                database::counted_to(x, n.next),
                                other,
                            );
                        },
                        _ => {},
                    }
                },
            }
        },
        CommandModel::Update { filter, assignments, .. } => {
            reveal(database::rows_updated);
            if database::rows_updated(db, name, filter, assignments, defer, cx) is Ok {
                let t = database::table_of(db, name)->0;
                let after = images::updated(t.rows(), filter, assignments, cx);
                if images::differing(t.rows(), after, t.rows().len() as int) != 0 {
                    database::other_tables_keep_rows(db, name, after, defer, cx.moment, other);
                }
            }
        },
        CommandModel::ExpressionUpdate { filter, assignments, .. } => {
            reveal(database::rows_expressed);
            if database::rows_expressed(db, name, filter, assignments, defer, cx) is Ok {
                let t = database::table_of(db, name)->0;
                let (after, n) = images::expressed(
                    t.rows(),
                    t.schema,
                    filter,
                    assignments,
                    cx,
                )->Ok_0;
                if n != 0 {
                    database::other_tables_keep_rows(db, name, after, defer, cx.moment, other);
                }
            }
        },
        CommandModel::ReplaceRows { rows: given, .. } => {
            if database::rows_written(db, name, given, defer, cx.moment) is Ok {
                database::other_tables_keep_rows(db, name, given, defer, cx.moment, other);
                let after = database::rows_written(db, name, given, defer, cx.moment)->Ok_0;
                match database::table_of(after, name) {
                    Some(t) => assoc::set_then_lookup(
                        after.tables,
                        name,
                        TableModel { next_id: Some(1), ..t },
                        other,
                    ),
                    None => {},
                }
            }
        },
        CommandModel::Delete { filter, .. } => {
            reveal(database::rows_deleted);
            if database::rows_deleted(db, name, filter, defer, cx) is Ok {
                let t = database::table_of(db, name)->0;
                let after = images::kept(t.rows(), filter, cx);
                if !(t.rows().len() == after.len() && filter is Some) {
                    database::other_tables_keep_rows(db, name, after, defer, cx.moment, other);
                }
            }
        },
        _ => {},
    }
}

proof fn insert_leaves(
    db: DatabaseModel,
    name: Seq<char>,
    rows: Seq<RowModel>,
    cx: ContextModel,
    other: Seq<char>,
)
    requires
        other != name,
    ensures
        database::rows_inserted(db, name, rows, cx.moment) matches Ok((after, _)) ==> same_of(
            db,
            after,
            other,
        ),
{
    reveal(database::rows_inserted);
    match database::table_of(db, name) {
        None => {},
        Some(t) => {
            match table::inserted(t, rows, cx.moment) {
                Ok((next, _)) => assoc::set_then_lookup(db.tables, name, next, other),
                Err(_) => {},
            }
        },
    }
}

/// A change of rows leaves every table of a store but its own; one that fails leaves all of them.
pub proof fn a_change_of_rows_stays_in_its_table(
    s: StoreModel,
    c: CommandModel,
    rows: Seq<RowModel>,
    defer: bool,
    orphans: u64,
    cx: ContextModel,
    d: Seq<char>,
    t: Seq<char>,
)
    requires
        commands::rows_target(c) is Some,
    ensures
        commands::rows_target(c) != Some((d, t)) ==> same_in(
            s,
            apply::step(s, c, rows, defer, orphans, cx).0,
            d,
            t,
        ),
        apply::step(s, c, rows, defer, orphans, cx).1 is Err ==> same_in(
            s,
            apply::step(s, c, rows, defer, orphans, cx).0,
            d,
            t,
        ),
{
    reveal(apply::step);
    let (home, name) = commands::rows_target(c)->0;
    assert(apply::command_database(c) == Some(home));
    match store::database_of(s, home) {
        None => {},
        Some(db) => {
            let (after, r) = apply::database_step(db, c, rows, defer, cx);
            assoc::set_then_lookup(s, home, after, d);
            if d == home && t != name {
                changes_touch_their_table_only(db, c, rows, defer, cx, t);
            }
            if r is Err {
                reveal(apply::database_step);
            }
        },
    }
}

/// A database that is made is there and has no tables; one that is dropped is gone. Every other
/// database is as it was.
pub proof fn databases_are_made_and_dropped(
    s: StoreModel,
    name: Seq<char>,
    defer: bool,
    orphans: u64,
    cx: ContextModel,
    other: Seq<char>,
)
    ensures
        ({
            let made = apply::step(
                s,
                CommandModel::CreateDatabase(name),
                Seq::empty(),
                defer,
                orphans,
                cx,
            );
            &&& made.1 is Ok
            &&& store::database_of(made.0, name) matches Some(db) && db.tables.len() == 0 && db.name
                == name && db.procedures.len() == 0
            &&& other != name ==> store::database_of(made.0, other) == store::database_of(s, other)
        }),
        ({
            let dropped = apply::step(
                s,
                CommandModel::DropDatabase(name),
                Seq::empty(),
                defer,
                orphans,
                cx,
            );
            &&& dropped.1 is Ok
            &&& store::database_of(dropped.0, name) is None
            &&& other != name ==> store::database_of(dropped.0, other) == store::database_of(
                s,
                other,
            )
        }),
{
    reveal(apply::step);
    assoc::set_then_lookup(s, name, store::empty_database(name), name);
    assoc::set_then_lookup(s, name, store::empty_database(name), other);
    assoc::remove_then_lookup(s, name, name);
    assoc::remove_then_lookup(s, name, other);
}

/// A table that is made is there, with its schema and without rows, unless one of its name was
/// there; one that is dropped is gone. Every other table is as it was.
pub proof fn tables_are_made_and_dropped(
    s: StoreModel,
    d: Seq<char>,
    schema: SchemaModel,
    name: Seq<char>,
    defer: bool,
    orphans: u64,
    cx: ContextModel,
    other: Seq<char>,
)
    requires
        store::database_of(s, d) is Some,
    ensures
        ({
            let c = CommandModel::CreateTable { database: d, schema: schema };
            let (after, r) = apply::step(s, c, Seq::empty(), defer, orphans, cx);
            &&& r is Ok <==> store::table_in(s, d, schema.name) is None
            &&& r is Ok ==> (store::table_in(after, d, schema.name) matches Some(t) && t.schema
                == schema && t.rows().len() == 0)
            &&& other != schema.name ==> store::table_in(after, d, other) == store::table_in(
                s,
                d,
                other,
            )
        }),
        ({
            let c = CommandModel::DropTable { database: d, table: name };
            let (after, r) = apply::step(s, c, Seq::empty(), defer, orphans, cx);
            &&& store::table_in(s, d, name) is None ==> r is Err
            &&& r is Ok ==> store::table_in(after, d, name) is None
            &&& other != name ==> store::table_in(after, d, other) == store::table_in(s, d, other)
        }),
{
    reveal(apply::step);
    reveal(apply::database_step);
    let db = store::database_of(s, d)->0;
    let c = CommandModel::CreateTable { database: d, schema: schema };
    let made = apply::database_step(db, c, Seq::empty(), defer, cx).0;
    assoc::set_then_lookup(s, d, made, d);
    let fresh = table::created(schema);
    if database::table_of(db, schema.name) is None {
        assert(db.tables.push((schema.name, fresh)) == assoc::with_entry(
            db.tables,
            schema.name,
            fresh,
        ));
        assoc::set_then_lookup(db.tables, schema.name, fresh, schema.name);
        assoc::set_then_lookup(db.tables, schema.name, fresh, other);
        assert(crate::rowpages::rows_of(fresh.pages) =~= Seq::empty());
        assert(crate::rowpages::flat(Seq::<Seq<RowModel>>::empty()) =~= Seq::empty());
        assert(fresh.rows().len() == 0);
    }
    let e = CommandModel::DropTable { database: d, table: name };
    let dropped = apply::database_step(db, e, Seq::empty(), defer, cx).0;
    assoc::set_then_lookup(s, d, dropped, d);
    assoc::remove_then_lookup(db.tables, name, name);
    assoc::remove_then_lookup(db.tables, name, other);
}

// ---------------------------------------------------------------------------------------------
// Batches
// ---------------------------------------------------------------------------------------------
/// Whether a command is applied by itself: inserts, and upserts alike, are applied in runs.
pub open spec fn stands_alone(c: CommandModel) -> bool {
    !(c is Insert) && !(c is Upsert)
}

proof fn run_before(list: Seq<CommandModel>, last: CommandModel, c: CommandModel, at: int)
    requires
        0 <= at <= list.len(),
        stands_alone(last),
    ensures
        apply::run_end(list.push(last), c, at) == apply::run_end(list, c, at),
        at <= apply::run_end(list, c, at) <= list.len(),
    decreases list.len() - at,
{
    reveal_with_fuel(apply::run_end, 2);
    let more = list.push(last);
    if at < list.len() {
        assert(more[at] == list[at]);
        if apply::joins(c, list[at]) {
            run_before(list, last, c, at + 1);
        }
    } else {
        assert(more[at] == last);
    }
}

/// A batch is applied in its order: a command that stands alone at its end is applied to what
/// those before it left, and only where they succeeded.
pub proof fn batches_are_applied_in_order(
    s: StoreModel,
    list: Seq<CommandModel>,
    last: CommandModel,
    at: int,
    affected: u64,
    last_id: u64,
    defer: bool,
    orphans: u64,
    cx: ContextModel,
)
    requires
        0 <= at <= list.len(),
        stands_alone(last),
        !(last is CleanupOrphanStorage),
    ensures
        ({
            let (mid, r) = apply::applied_from(
                s,
                list,
                at,
                affected,
                last_id,
                defer,
                orphans,
                cx,
            );
            let (after, whole) = apply::applied_from(
                s,
                list.push(last),
                at,
                affected,
                last_id,
                defer,
                orphans,
                cx,
            );
            &&& r matches Err(e) ==> after == mid && whole is Err
            &&& r is Ok ==> after == apply::step(
                mid,
                last,
                seq![apply::row_of(last)],
                defer,
                0,
                cx,
            ).0 && (whole is Ok <==> apply::step(
                mid,
                last,
                seq![apply::row_of(last)],
                defer,
                0,
                cx,
            ).1 is Ok)
        }),
    decreases list.len() - at,
{
    let more = list.push(last);
    if at < list.len() {
        let c = list[at];
        assert(more[at] == c);
        run_before(list, last, c, at + 1);
        let end = apply::run_end(list, c, at + 1);
        assert(apply::rows_of(more, at, end) =~= apply::rows_of(list, at, end)) by {
            assert(more.subrange(at, end) =~= list.subrange(at, end));
        }
        let (after, r) = apply::step(s, c, apply::rows_of(list, at, end), defer, orphans, cx);
        if r is Ok {
            let (n, id) = r->Ok_0;
            batches_are_applied_in_order(
                after,
                list,
                last,
                end,
                affected.saturating_add(n),
                if last_id == 0 {
                    id
                } else {
                    last_id
                },
                defer,
                if c is CleanupOrphanStorage {
                    0
                } else {
                    orphans
                },
                cx,
            );
        }
    } else {
        assert(more[at] == last);
        reveal(apply::step);
        reveal_with_fuel(apply::applied_from, 2);
        reveal_with_fuel(apply::run_end, 2);
        assert(apply::run_end(more, last, at + 1) == at + 1);
        assert(apply::rows_of(more, at, at + 1) =~= seq![apply::row_of(last)]) by {
            assert(more.subrange(at, at + 1) =~= seq![last]);
        }
    }
}

} // verus!
