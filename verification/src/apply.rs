//! Applying write commands to the store.
use crate::assoc;
use crate::commands::{CommandModel, WriteCommand, WriteResult};
use crate::database;
use crate::database::{Database, DatabaseModel};
use crate::error;
use crate::error::{DbError, DbResult};
use crate::predicate::{Context, ContextModel};
use crate::row::{Row, RowModel};
use crate::sqltext;
use crate::store;
use crate::store::{Store, StoreModel};
use crate::table;
use crate::text;
use vstd::prelude::*;

verus! {

// ---------------------------------------------------------------------------------------------
// Runs of commands that are applied together
// ---------------------------------------------------------------------------------------------
/// Whether two commands insert into the same table, or upsert into it in the same way.
pub open spec fn joins(a: CommandModel, b: CommandModel) -> bool {
    match (a, b) {
        (
            CommandModel::Insert { database: d, table: t, .. },
            CommandModel::Insert { database: d2, table: t2, .. },
        ) => d == d2 && t == t2,
        (
            CommandModel::Upsert { database: d, table: t, update_columns: u, ignore: i, .. },
            CommandModel::Upsert { database: d2, table: t2, update_columns: u2, ignore: i2, .. },
        ) => d == d2 && t == t2 && u == u2 && i == i2,
        _ => false,
    }
}

/// Where the run of commands that join a command ends.
pub open spec fn run_end(list: Seq<CommandModel>, c: CommandModel, at: int) -> int
    decreases list.len() - at,
{
    if 0 <= at < list.len() && joins(c, list[at]) {
        run_end(list, c, at + 1)
    } else {
        at
    }
}

pub proof fn run_end_bounds(list: Seq<CommandModel>, c: CommandModel, at: int)
    requires
        0 <= at <= list.len(),
    ensures
        at <= run_end(list, c, at) <= list.len(),
    decreases list.len() - at,
{
    if at < list.len() && joins(c, list[at]) {
        run_end_bounds(list, c, at + 1);
    }
}

/// The row that a command brings.
pub open spec fn row_of(c: CommandModel) -> RowModel {
    match c {
        CommandModel::Insert { row, .. } => row,
        CommandModel::Upsert { row, .. } => row,
        _ => RowModel::empty(),
    }
}

pub open spec fn rows_of(list: Seq<CommandModel>, from: int, to: int) -> Seq<RowModel> {
    list.subrange(from, to).map_values(|c: CommandModel| row_of(c))
}

pub fn commands_join(a: &WriteCommand, b: &WriteCommand) -> (r: bool)
    ensures
        r == joins(a@, b@),
{
    match (a, b) {
        (
            WriteCommand::Insert { database: d, table: t, row: _ },
            WriteCommand::Insert { database: d2, table: t2, row: _ },
        ) => text::text_equal(d.as_str(), d2.as_str()) && text::text_equal(
            t.as_str(),
            t2.as_str(),
        ),
        (
            WriteCommand::Upsert { database: d, table: t, row: _, update_columns: u, ignore: i },
            WriteCommand::Upsert {
                database: d2,
                table: t2,
                row: _,
                update_columns: u2,
                ignore: i2,
            },
        ) => text::text_equal(d.as_str(), d2.as_str()) && text::text_equal(t.as_str(), t2.as_str())
            && crate::altered::same_names(u, u2) && *i == *i2,
        _ => false,
    }
}

pub fn command_row(c: &WriteCommand) -> (r: Row)
    ensures
        r@ == row_of(c@),
{
    match c {
        WriteCommand::Insert { database: _, table: _, row } => row.clone(),
        WriteCommand::Upsert { database: _, table: _, row, update_columns: _, ignore: _ } => {
            row.clone()
        },
        _ => Row::new(),
    }
}

/// The rows of the run that begins with a command, and where the run ends.
pub fn take_run(list: &Vec<WriteCommand>, at: usize) -> (r: (Vec<Row>, usize))
    requires
        at < list@.len(),
    ensures
        at < r.1 <= list@.len(),
        r.1 == run_end(list.deep_view(), list@[at as int]@, at + 1),
        r.0.deep_view() == rows_of(list.deep_view(), at as int, r.1 as int),
{
    let ghost all = list.deep_view();
    let ghost c = list@[at as int]@;
    let total: usize = list.len();
    let mut out: Vec<Row> = Vec::new();
    let first = command_row(&list[at]);
    out.push(first);
    assert(at + 1 <= total);
    let mut i: usize = at + 1;
    assert(all[at as int] == c);
    assert(out.deep_view() =~= rows_of(all, at as int, i as int));
    while i < list.len() && commands_join(&list[at], &list[i])
        invariant
            at < i <= list@.len(),
            all == list.deep_view(),
            c == list@[at as int]@,
            run_end(all, c, i as int) == run_end(all, c, at + 1),
            out.deep_view() == rows_of(all, at as int, i as int),
        decreases list@.len() - i,
    {
        let ghost before = out.deep_view();
        let one = command_row(&list[i]);
        out.push(one);
        proof {
            assert(out.deep_view() =~= before.push(row_of(all[i as int])));
            assert(rows_of(all, at as int, i + 1) =~= before.push(row_of(all[i as int])));
        }
        i += 1;
    }
    (out, i)
}

// ---------------------------------------------------------------------------------------------
// One command
// ---------------------------------------------------------------------------------------------
/// What one step comes to: the store, and how many rows it changed with the number it generated.
pub type StepModel = (StoreModel, Result<(u64, u64), Seq<char>>);

/// What a command does to the database that it names, with the rows that it brings. A change that
/// fails half way is the second component of the outcome.
#[verifier::opaque]
pub open spec fn database_step(
    db: DatabaseModel,
    c: CommandModel,
    rows: Seq<RowModel>,
    defer: bool,
    cx: ContextModel,
) -> (DatabaseModel, Result<(u64, u64), Seq<char>>) {
    match c {
        CommandModel::CreateTable { schema, .. } => if database::table_of(db, schema.name) is Some {
            (db, Err("Table '"@ + schema.name + "' already exists"@))
        } else {
            (
                DatabaseModel {
                    tables: db.tables.push((schema.name, table::created(schema))),
                    ..db
                },
                Ok((0, 0)),
            )
        },
        CommandModel::DropTable { table, .. } => if database::table_of(db, table) is None {
            (db, Err(database::no_table(table)))
        } else {
            match database::component(table) {
                Err(e) => (db, Err(e)),
                Ok(_) => (
                    DatabaseModel { tables: assoc::without_entry(db.tables, table), ..db },
                    Ok((0, 0)),
                ),
            }
        },
        CommandModel::AlterTable { table, operation, .. } => {
            let (after, r) = database::table_altered(db, table, operation, cx.moment);
            (
                after,
                match r {
                    Err(e) => Err(e),
                    Ok(_) => Ok((0, 0)),
                },
            )
        },
        CommandModel::Insert { table, .. } => match database::rows_inserted(
            db,
            table,
            rows,
            cx.moment,
        ) {
            Err(e) => (db, Err(e)),
            Ok((after, id)) => (after, Ok((rows.len() as u64, id))),
        },
        CommandModel::Upsert { table, update_columns, ignore, .. } => {
            match database::rows_upserted(
                db,
                table,
                rows,
                update_columns,
                ignore,
                defer,
                cx.moment,
            ) {
                Err(e) => (db, Err(e)),
                Ok((after, n)) => (after, Ok((n, 0))),
            }
        },
        CommandModel::Update { table, filter, assignments, .. } => match database::rows_updated(
            db,
            table,
            filter,
            assignments,
            defer,
            cx,
        ) {
            Err(e) => (db, Err(e)),
            Ok((after, n)) => (after, Ok((n, 0))),
        },
        CommandModel::ExpressionUpdate { table, filter, assignments, .. } => {
            match database::rows_expressed(db, table, filter, assignments, defer, cx) {
                Err(e) => (db, Err(e)),
                Ok((after, n)) => (after, Ok((n, 0))),
            }
        },
        CommandModel::ReplaceRows { table, rows, affected_rows, .. } => {
            match database::rows_written(db, table, rows, defer, cx.moment) {
                Err(e) => (db, Err(e)),
                Ok(after) => (
                    if rows.len() == 0 && affected_rows == 0 {
                        database::numbering_reset(after, table)
                    } else {
                        after
                    },
                    Ok((affected_rows, 0)),
                ),
            }
        },
        CommandModel::Delete { table, filter, .. } => match database::rows_deleted(
            db,
            table,
            filter,
            defer,
            cx,
        ) {
            Err(e) => (db, Err(e)),
            Ok((after, n)) => (after, Ok((n, 0))),
        },
        CommandModel::CreateProcedure { procedure, .. } => match database::procedure_created(
            db,
            procedure,
            crate::schema::created_metadata(cx.moment),
        ) {
            Err(e) => (db, Err(e)),
            Ok(after) => (after, Ok((0, 0))),
        },
        CommandModel::DropProcedure { procedure, .. } => match database::procedure_dropped(
            db,
            procedure,
        ) {
            Err(e) => (db, Err(e)),
            Ok(after) => (after, Ok((0, 0))),
        },
        CommandModel::AlterProcedure { procedure, create_sql, .. } => {
            match database::procedure_altered(
                db,
                procedure,
                create_sql,
                crate::schema::altered_metadata(
                    match database::metadata_of(db, procedure) {
                        Some(found) => found,
                        None => crate::schema::created_metadata(cx.moment),
                    },
                    cx.moment,
                ),
            ) {
                Err(e) => (db, Err(e)),
                Ok(after) => (after, Ok((0, 0))),
            }
        },
        CommandModel::CreateProcedureV2 { procedure, metadata, .. } => {
            match database::procedure_created(db, procedure, metadata) {
                Err(e) => (db, Err(e)),
                Ok(after) => (after, Ok((0, 0))),
            }
        },
        CommandModel::AlterProcedureV2 { procedure, create_sql, metadata, .. } => {
            match database::procedure_altered(db, procedure, create_sql, metadata) {
                Err(e) => (db, Err(e)),
                Ok(after) => (after, Ok((0, 0))),
            }
        },
        _ => (db, Ok((0, 0))),
    }
}

/// The database that a command changes from within.
pub open spec fn command_database(c: CommandModel) -> Option<Seq<char>> {
    match c {
        CommandModel::CreateDatabase(_) => None,
        CommandModel::DropDatabase(_) => None,
        CommandModel::CleanupOrphanStorage => None,
        CommandModel::ForeignKeyChecksDisabled => None,
        CommandModel::CreateTable { database, .. } => Some(database),
        CommandModel::DropTable { database, .. } => Some(database),
        CommandModel::AlterTable { database, .. } => Some(database),
        CommandModel::Insert { database, .. } => Some(database),
        CommandModel::Upsert { database, .. } => Some(database),
        CommandModel::Update { database, .. } => Some(database),
        CommandModel::ExpressionUpdate { database, .. } => Some(database),
        CommandModel::ReplaceRows { database, .. } => Some(database),
        CommandModel::Delete { database, .. } => Some(database),
        CommandModel::CreateProcedure { database, .. } => Some(database),
        CommandModel::DropProcedure { database, .. } => Some(database),
        CommandModel::AlterProcedure { database, .. } => Some(database),
        CommandModel::CreateProcedureV2 { database, .. } => Some(database),
        CommandModel::AlterProcedureV2 { database, .. } => Some(database),
    }
}

/// What one command comes to, `orphans` being how many abandoned tables a cleanup removes.
#[verifier::opaque]
pub open spec fn step(
    s: StoreModel,
    c: CommandModel,
    rows: Seq<RowModel>,
    defer: bool,
    orphans: u64,
    cx: ContextModel,
) -> StepModel {
    match c {
        CommandModel::CreateDatabase(name) => (
            assoc::with_entry(s, name, store::empty_database(name)),
            Ok((0, 0)),
        ),
        CommandModel::DropDatabase(name) => (assoc::without_entry(s, name), Ok((0, 0))),
        CommandModel::CleanupOrphanStorage => (s, Ok((orphans, 0))),
        CommandModel::ForeignKeyChecksDisabled => (
            s,
            Err("foreign key session marker reached storage apply"@),
        ),
        _ => {
            let name = command_database(c)->0;
            match store::database_of(s, name) {
                None => (s, Err(store::unknown_database(name))),
                Some(db) => {
                    let (after, r) = database_step(db, c, rows, defer, cx);
                    (assoc::with_entry(s, name, after), r)
                },
            }
        },
    }
}

#[verifier::rlimit(60)]
fn apply_to_database(
    db: &mut Database,
    c: &WriteCommand,
    rows: &Vec<Row>,
    defer: bool,
    cx: &Context,
) -> (r: DbResult<(u64, u64)>)
    requires
        old(db).wf(),
    ensures
        final(db).wf(),
        final(db)@ == database_step(old(db)@, c@, rows.deep_view(), defer, cx@).0,
        error::outcome(r) == database_step(old(db)@, c@, rows.deep_view(), defer, cx@).1,
{
    proof {
        reveal(database_step);
        reveal(database::rows_written);
    }
    match c {
        WriteCommand::CreateTable { database: _, schema } => {
            let s = schema.clone();
            match db.create_table(s) {
                Err(e) => Err(e),
                Ok(_) => Ok((0, 0)),
            }
        },
        WriteCommand::DropTable { database: _, table } => match db.drop_table(table.as_str()) {
            Err(e) => Err(e),
            Ok(_) => Ok((0, 0)),
        },
        WriteCommand::AlterTable { database: _, table, operation } => match db.alter_table(
            table.as_str(),
            operation,
            &cx.moment,
        ) {
            Err(e) => Err(e),
            Ok(_) => Ok((0, 0)),
        },
        WriteCommand::Insert { database: _, table, row: _ } => {
            assert(rows.deep_view().len() == rows@.len());
            match db.insert_rows_validated(table.as_str(), rows, &cx.moment) {
                Err(e) => Err(e),
                Ok(id) => Ok((rows.len() as u64, id)),
            }
        },
        WriteCommand::Upsert { database: _, table, row: _, update_columns, ignore } => {
            match db.upsert_rows_mode(
                table.as_str(),
                rows,
                update_columns,
                *ignore,
                defer,
                &cx.moment,
            ) {
                Err(e) => Err(e),
                Ok(n) => Ok((n, 0)),
            }
        },
        WriteCommand::Update { database: _, table, filter, assignments } => {
            match db.update_rows_mode(table.as_str(), filter, assignments, defer, cx) {
                Err(e) => Err(e),
                Ok(n) => Ok((n, 0)),
            }
        },
        WriteCommand::ExpressionUpdate { database: _, table, filter, assignments } => {
            match db.update_rows_expression_mode(table.as_str(), filter, assignments, defer, cx) {
                Err(e) => Err(e),
                Ok(n) => Ok((n, 0)),
            }
        },
        WriteCommand::ReplaceRows { database: _, table, rows: given, affected_rows } => {
            let r = if defer {
                db.stage_rows(table.as_str(), given, &cx.moment)
            } else {
                db.replace_rows(table.as_str(), given, &cx.moment)
            };
            match r {
                Err(e) => Err(e),
                Ok(_) => {
                    assert(given.deep_view().len() == given@.len());
                    if given.len() == 0 && *affected_rows == 0 {
                        db.reset_auto_increment(table.as_str());
                    }
                    Ok((*affected_rows, 0))
                },
            }
        },
        WriteCommand::Delete { database: _, table, filter } => match db.delete_rows_mode(
            table.as_str(),
            filter,
            defer,
            cx,
        ) {
            Err(e) => Err(e),
            Ok(n) => Ok((n, 0)),
        },
        WriteCommand::CreateProcedure { database: _, procedure } => {
            let p = procedure.clone();
            match db.create_procedure(p, &cx.moment) {
                Err(e) => Err(e),
                Ok(_) => Ok((0, 0)),
            }
        },
        WriteCommand::DropProcedure { database: _, procedure } => match db.drop_procedure(
            procedure.as_str(),
        ) {
            Err(e) => Err(e),
            Ok(_) => Ok((0, 0)),
        },
        WriteCommand::AlterProcedure { database: _, procedure, create_sql } => {
            match db.alter_procedure(procedure.as_str(), create_sql.clone(), &cx.moment) {
                Err(e) => Err(e),
                Ok(_) => Ok((0, 0)),
            }
        },
        WriteCommand::CreateProcedureV2 { database: _, procedure, metadata } => {
            let p = procedure.clone();
            let d = metadata.clone();
            match db.create_procedure_with_metadata(p, d) {
                Err(e) => Err(e),
                Ok(_) => Ok((0, 0)),
            }
        },
        WriteCommand::AlterProcedureV2 { database: _, procedure, create_sql, metadata } => {
            let d = metadata.clone();
            match db.alter_procedure_with_metadata(procedure.as_str(), create_sql.clone(), d) {
                Err(e) => Err(e),
                Ok(_) => Ok((0, 0)),
            }
        },
        _ => Ok((0, 0)),
    }
}

pub fn database_of_command(c: &WriteCommand) -> (r: Option<String>)
    ensures
        r.deep_view() == command_database(c@),
{
    match c {
        WriteCommand::CreateDatabase(_) => None,
        WriteCommand::DropDatabase(_) => None,
        WriteCommand::CleanupOrphanStorage => None,
        WriteCommand::ForeignKeyChecksDisabled => None,
        WriteCommand::CreateTable { database, .. } => Some(database.clone()),
        WriteCommand::DropTable { database, .. } => Some(database.clone()),
        WriteCommand::AlterTable { database, .. } => Some(database.clone()),
        WriteCommand::Insert { database, .. } => Some(database.clone()),
        WriteCommand::Upsert { database, .. } => Some(database.clone()),
        WriteCommand::Update { database, .. } => Some(database.clone()),
        WriteCommand::ExpressionUpdate { database, .. } => Some(database.clone()),
        WriteCommand::ReplaceRows { database, .. } => Some(database.clone()),
        WriteCommand::Delete { database, .. } => Some(database.clone()),
        WriteCommand::CreateProcedure { database, .. } => Some(database.clone()),
        WriteCommand::DropProcedure { database, .. } => Some(database.clone()),
        WriteCommand::AlterProcedure { database, .. } => Some(database.clone()),
        WriteCommand::CreateProcedureV2 { database, .. } => Some(database.clone()),
        WriteCommand::AlterProcedureV2 { database, .. } => Some(database.clone()),
    }
}

/// Applies one command, with the rows of the run that it begins.
fn apply_step(
    s: &mut Store,
    c: &WriteCommand,
    rows: &Vec<Row>,
    defer: bool,
    orphans: u64,
    cx: &Context,
) -> (r: DbResult<(u64, u64)>)
    requires
        old(s).wf(),
    ensures
        final(s).wf(),
        final(s)@ == step(old(s)@, c@, rows.deep_view(), defer, orphans, cx@).0,
        error::outcome(r) == step(old(s)@, c@, rows.deep_view(), defer, orphans, cx@).1,
{
    proof {
        reveal(step);
    }
    match c {
        WriteCommand::CreateDatabase(name) => {
            s.put_database(name.as_str(), Database::new(name.as_str()));
            return Ok((0, 0));
        },
        WriteCommand::DropDatabase(name) => {
            s.remove_database(name.as_str());
            return Ok((0, 0));
        },
        WriteCommand::CleanupOrphanStorage => {
            return Ok((orphans, 0));
        },
        WriteCommand::ForeignKeyChecksDisabled => {
            return Err(DbError::of("foreign key session marker reached storage apply"));
        },
        _ => {},
    }
    match database_of_command(c) {
        None => {
            assert(false);
            Ok((0, 0))
        },
        Some(name) => {
            let ghost before = *s;
            match s.find(name.as_str()) {
                None => Err(store::unknown_database_error(name.as_str())),
                Some(i) => {
                    let r = apply_to_database(&mut s.databases[i].1, c, rows, defer, cx);
                    proof {
                        store::store_changed_at(before, *s, i as int);
                    }
                    r
                },
            }
        },
    }
}

// ---------------------------------------------------------------------------------------------
// A batch
// ---------------------------------------------------------------------------------------------
/// What the commands from the `at`-th on come to, given what those before them have done.
pub open spec fn applied_from(
    s: StoreModel,
    list: Seq<CommandModel>,
    at: int,
    affected: u64,
    last_id: u64,
    defer: bool,
    orphans: u64,
    cx: ContextModel,
) -> (StoreModel, Result<WriteResult, Seq<char>>)
    decreases list.len() - at,
{
    if at < 0 || at >= list.len() {
        (s, Ok(WriteResult { affected_rows: affected, last_insert_id: last_id }))
    } else {
        let c = list[at];
        let end = run_end(list, c, at + 1);
        let (after, r) = step(s, c, rows_of(list, at, end), defer, orphans, cx);
        proof {
            run_end_bounds(list, c, at + 1);
        }
        match r {
            Err(e) => (after, Err(e)),
            Ok((n, id)) => applied_from(
                after,
                list,
                end,
                affected.saturating_add(n),
                if last_id == 0 {
                    id
                } else {
                    last_id
                },
                defer,
                if c is CleanupOrphanStorage {
                    0
                } else {
                    orphans
                },
                cx,
            ),
        }
    }
}

/// What a batch of commands comes to. Commands before one that fails have been applied.
pub open spec fn applied_batch(
    s: StoreModel,
    list: Seq<CommandModel>,
    defer: bool,
    orphans: u64,
    cx: ContextModel,
) -> (StoreModel, Result<WriteResult, Seq<char>>) {
    applied_from(s, list, 0, 0, 0, defer, orphans, cx)
}

#[verifier::loop_isolation(false)]
pub fn apply_commands(
    s: &mut Store,
    list: &Vec<WriteCommand>,
    defer: bool,
    orphans: u64,
    cx: &Context,
) -> (r: DbResult<WriteResult>)
    requires
        old(s).wf(),
    ensures
        final(s).wf(),
        final(s)@ == applied_batch(old(s)@, list.deep_view(), defer, orphans, cx@).0,
        error::outcome(r) == applied_batch(old(s)@, list.deep_view(), defer, orphans, cx@).1,
{
    let ghost all = list.deep_view();
    let ghost whole = applied_batch(s@, all, defer, orphans, cx@);
    let mut affected: u64 = 0;
    let mut last_id: u64 = 0;
    let mut left: u64 = orphans;
    let mut at: usize = 0;
    while at < list.len()
        invariant
            at <= list@.len(),
            all == list.deep_view(),
            s.wf(),
            applied_from(s@, all, at as int, affected, last_id, defer, left, cx@) == whole,
        decreases list@.len() - at,
    {
        assert(all[at as int] == list@[at as int]@);
        let (rows, end) = take_run(list, at);
        match apply_step(s, &list[at], &rows, defer, left, cx) {
            Err(e) => {
                return Err(e);
            },
            Ok(n) => {
                affected = affected.saturating_add(n.0);
                if last_id == 0 {
                    last_id = n.1;
                }
                let cleanup = match &list[at] {
                    WriteCommand::CleanupOrphanStorage => true,
                    _ => false,
                };
                if cleanup {
                    left = 0;
                }
            },
        }
        at = end;
    }
    Ok(WriteResult { affected_rows: affected, last_insert_id: last_id })
}

/// The databases whose catalog a batch leaves to be saved: those with rows of durable tables that
/// it changed.
pub open spec fn dirty_from(s: StoreModel, list: Seq<CommandModel>, at: int, names: Seq<Seq<char>>) -> Seq<
    Seq<char>,
>
    decreases list.len() - at,
{
    if at < 0 || at >= list.len() {
        names
    } else {
        dirty_from(
            s,
            list,
            at + 1,
            match crate::commands::rows_target(list[at]) {
                Some((d, n)) => if store::table_in(s, d, n) matches Some(t) && sqltext::is_memory(
                    t.schema,
                ) {
                    names
                } else {
                    assoc::with_name(names, d)
                },
                None => names,
            },
        )
    }
}

pub fn dirty_databases(s: &Store, list: &Vec<WriteCommand>) -> (r: Vec<String>)
    ensures
        r.deep_view() == dirty_from(s@, list.deep_view(), 0, Seq::empty()),
{
    let ghost all = list.deep_view();
    let mut out: Vec<String> = Vec::new();
    let mut i: usize = 0;
    assert(out.deep_view() =~= Seq::empty());
    while i < list.len()
        invariant
            i <= list@.len(),
            all == list.deep_view(),
            dirty_from(s@, all, i as int, out.deep_view()) == dirty_from(s@, all, 0, Seq::empty()),
        decreases list@.len() - i,
    {
        assert(all[i as int] == list@[i as int]@);
        match crate::commands::command_table(&list[i]) {
            None => {},
            Some(target) => {
                if !s.is_memory_table(target.0.as_str(), target.1.as_str()) {
                    assoc::add_name(&mut out, target.0.as_str());
                }
            },
        }
        i += 1;
    }
    out
}

} // verus!
