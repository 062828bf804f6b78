//! Replaying logged commands after a restart: commands whose effect already stands are skipped.
use crate::alter;
use crate::altered;
use crate::apply;
use crate::assoc;
use crate::batch;
use crate::commands;
use crate::commands::{CommandModel, WriteCommand};
use crate::database;
use crate::database::ProcedureList;
use crate::error;
use crate::error::DbResult;
use crate::pairs;
use crate::predicate::{Context, ContextModel};
use crate::row::{Row, RowModel};
use crate::schema::{ProcedureDefinition, SchemaModel, TableSchema};
use crate::sqltext;
use crate::store;
use crate::store::{Store, StoreModel};
use crate::validate;
use crate::validate::CatalogModel;
use vstd::prelude::*;

verus! {

/// The catalog as the commands so far leave it.
#[verifier::ext_equal]
pub struct ReplayModel {
    pub catalog: CatalogModel,
    pub procedures: Seq<(Seq<char>, ProcedureList)>,
}

pub struct Replay {
    pub catalog: Vec<(String, Vec<(String, TableSchema)>)>,
    pub procedures: Vec<(String, Vec<(String, ProcedureDefinition)>)>,
}

impl View for Replay {
    type V = ReplayModel;

    open spec fn view(&self) -> ReplayModel {
        ReplayModel {
            catalog: self.catalog.deep_view(),
            procedures: self.procedures.deep_view(),
        }
    }
}

/// Whether a table is there and keeps its rows over a restart.
pub open spec fn durable(state: ReplayModel, d: Seq<char>, t: Seq<char>) -> bool {
    validate::schema_in(state.catalog, d, t) matches Some(s) && !sqltext::is_memory(s)
}

/// Whether a stored row cannot stand beside a row.
pub open spec fn stored_conflict(
    actual: StoreModel,
    d: Seq<char>,
    t: Seq<char>,
    r: RowModel,
    s: SchemaModel,
) -> bool {
    store::table_in(actual, d, t) matches Some(found) && exists|i: int|
        0 <= i < found.rows().len() && commands::conflict(#[trigger] found.rows()[i], r, s)
}

/// What a change of a database's procedures comes to; a change that is refused is skipped.
pub open spec fn routine_step(
    state: ReplayModel,
    d: Seq<char>,
    change: spec_fn(ProcedureList) -> Result<ProcedureList, Seq<char>>,
) -> (ReplayModel, bool) {
    match assoc::lookup(state.procedures, d) {
        None => (state, false),
        Some(list) => match change(list) {
            Err(_) => (state, false),
            Ok(after) => (
                ReplayModel {
                    procedures: assoc::with_entry(state.procedures, d, after),
                    ..state
                },
                true,
            ),
        },
    }
}

/// The catalog after a command, and whether the command is to be replayed.
#[verifier::opaque]
pub open spec fn replay_step(state: ReplayModel, c: CommandModel, actual: StoreModel) -> Result<
    (ReplayModel, bool),
    Seq<char>,
> {
    match c {
        CommandModel::CreateDatabase(name) => if assoc::lookup(state.catalog, name) is Some {
            Ok((state, false))
        } else {
            Ok(
                (
                    ReplayModel {
                        catalog: assoc::with_entry(state.catalog, name, Seq::empty()),
                        procedures: assoc::with_entry(state.procedures, name, Seq::empty()),
                    },
                    true,
                ),
            )
        },
        CommandModel::DropDatabase(name) => if assoc::lookup(state.catalog, name) is None {
            Ok((state, false))
        } else {
            Ok(
                (
                    ReplayModel {
                        catalog: assoc::without_entry(state.catalog, name),
                        procedures: assoc::without_entry(state.procedures, name),
                    },
                    true,
                ),
            )
        },
        CommandModel::CreateTable { database, schema } => match assoc::lookup(
            state.catalog,
            database,
        ) {
            None => Ok((state, false)),
            Some(tables) => if assoc::lookup(tables, schema.name) is Some {
                Ok((state, false))
            } else {
                Ok(
                    (
                        ReplayModel {
                            catalog: assoc::with_entry(
                                state.catalog,
                                database,
                                assoc::with_entry(tables, schema.name, schema),
                            ),
                            ..state
                        },
                        true,
                    ),
                )
            },
        },
        CommandModel::DropTable { database, table } => match assoc::lookup(
            state.catalog,
            database,
        ) {
            None => Ok((state, false)),
            Some(tables) => if assoc::lookup(tables, table) is None {
                Ok((state, false))
            } else {
                Ok(
                    (
                        ReplayModel {
                            catalog: assoc::with_entry(
                                state.catalog,
                                database,
                                assoc::without_entry(tables, table),
                            ),
                            ..state
                        },
                        true,
                    ),
                )
            },
        },
        CommandModel::AlterTable { database, table, operation } => match validate::schema_in(
            state.catalog,
            database,
            table,
        ) {
            None => Ok((state, false)),
            Some(s) => if altered::applied(s, operation) {
                Ok((state, false))
            } else {
                match alter::altered(s, operation) {
                    Err(e) => Err(e),
                    Ok((after, _)) => Ok(
                        (
                            ReplayModel {
                                catalog: assoc::with_entry(
                                    state.catalog,
                                    database,
                                    assoc::with_entry(
                                        assoc::lookup(state.catalog, database)->0,
                                        table,
                                        after,
                                    ),
                                ),
                                ..state
                            },
                            true,
                        ),
                    ),
                }
            },
        },
        CommandModel::Insert { database, table, row } => match validate::schema_in(
            state.catalog,
            database,
            table,
        ) {
            None => Ok((state, false)),
            Some(s) => Ok(
                (
                    state,
                    !sqltext::is_memory(s) && !stored_conflict(actual, database, table, row, s),
                ),
            ),
        },
        CommandModel::Upsert { database, table, .. } => Ok(
            (state, durable(state, database, table)),
        ),
        CommandModel::Update { database, table, .. } => Ok(
            (state, durable(state, database, table)),
        ),
        CommandModel::ExpressionUpdate { database, table, .. } => Ok(
            (state, durable(state, database, table)),
        ),
        CommandModel::ReplaceRows { database, table, .. } => Ok(
            (state, durable(state, database, table)),
        ),
        CommandModel::Delete { database, table, .. } => Ok(
            (state, durable(state, database, table)),
        ),
        CommandModel::CleanupOrphanStorage => Ok((state, true)),
        CommandModel::ForeignKeyChecksDisabled => Ok((state, false)),
        CommandModel::CreateProcedure { database, procedure } => Ok(
            routine_step(
                state,
                database,
                |list: ProcedureList| database::procedure_added(list, procedure),
            ),
        ),
        CommandModel::DropProcedure { database, procedure } => Ok(
            routine_step(
                state,
                database,
                |list: ProcedureList| database::procedure_removed(list, procedure),
            ),
        ),
        CommandModel::AlterProcedure { database, procedure, create_sql } => Ok(
            routine_step(
                state,
                database,
                |list: ProcedureList| database::procedure_changed(list, procedure, create_sql),
            ),
        ),
        CommandModel::CreateProcedureV2 { database, procedure, .. } => Ok(
            routine_step(
                state,
                database,
                |list: ProcedureList| database::procedure_added(list, procedure),
            ),
        ),
        CommandModel::AlterProcedureV2 { database, procedure, create_sql, .. } => Ok(
            routine_step(
                state,
                database,
                |list: ProcedureList| database::procedure_changed(list, procedure, create_sql),
            ),
        ),
    }
}

fn has_stored_conflict(actual: &Store, d: &str, t: &str, r: &Row, s: &TableSchema) -> (res: bool)
    requires
        actual.wf(),
    ensures
        res == stored_conflict(actual@, d@, t@, r@, s@),
{
    let db = match actual.database(d) {
        None => {
            return false;
        },
        Some(db) => db,
    };
    let rows = match db.scan_table(t) {
        Err(_) => {
            return false;
        },
        Ok(rows) => rows,
    };
    let ghost all = rows.deep_view();
    let mut i: usize = 0;
    while i < rows.len()
        invariant
            i <= rows@.len(),
            all == rows.deep_view(),
            forall|j: int| 0 <= j < i ==> !commands::conflict(#[trigger] all[j], r@, s@),
            store::table_in(actual@, d@, t@) matches Some(found) && found.rows() == all,
        decreases rows@.len() - i,
    {
        assert(all[i as int] == rows@[i as int]@);
        if commands::rows_have_constraint_conflict(&rows[i], r, s) {
            return true;
        }
        i += 1;
    }
    false
}

impl Replay {
    fn is_durable(&self, d: &str, t: &str) -> (r: bool)
        ensures
            r == durable(self@, d@, t@),
    {
        match validate::find_schema(&self.catalog, d, t) {
            None => false,
            Some(s) => !sqltext::is_memory_schema(s),
        }
    }

    fn add_routine(&mut self, d: &str, p: &ProcedureDefinition) -> (r: bool)
        ensures
            routine_step(
                old(self)@,
                d@,
                |list: ProcedureList| database::procedure_added(list, p@),
            ) == (final(self)@, r),
    {
        let ghost before = self@;
        match assoc::find_entry(&self.procedures, d) {
            None => false,
            Some(i) => {
                assert(before.procedures[i as int].1 == self.procedures@[i as int].1.deep_view());
                let r = database::add_procedure(&mut self.procedures[i].1, p.clone());
                assert(self.procedures.deep_view() =~= before.procedures.update(
                    i as int,
                    (before.procedures[i as int].0, self.procedures@[i as int].1.deep_view()),
                ));
                proof {
                    if r is Err {
                        assert(self.procedures.deep_view() =~= before.procedures);
                    }
                }
                r.is_ok()
            },
        }
    }

    fn remove_routine(&mut self, d: &str, name: &str) -> (r: bool)
        ensures
            routine_step(
                old(self)@,
                d@,
                |list: ProcedureList| database::procedure_removed(list, name@),
            ) == (final(self)@, r),
    {
        let ghost before = self@;
        match assoc::find_entry(&self.procedures, d) {
            None => false,
            Some(i) => {
                assert(before.procedures[i as int].1 == self.procedures@[i as int].1.deep_view());
                let r = database::remove_procedure(&mut self.procedures[i].1, name);
                assert(self.procedures.deep_view() =~= before.procedures.update(
                    i as int,
                    (before.procedures[i as int].0, self.procedures@[i as int].1.deep_view()),
                ));
                proof {
                    if r is Err {
                        assert(self.procedures.deep_view() =~= before.procedures);
                    }
                }
                r.is_ok()
            },
        }
    }

    fn change_routine(&mut self, d: &str, name: &str, sql: &String) -> (r: bool)
        ensures
            routine_step(
                old(self)@,
                d@,
                |list: ProcedureList| database::procedure_changed(list, name@, sql@),
            ) == (final(self)@, r),
    {
        let ghost before = self@;
        match assoc::find_entry(&self.procedures, d) {
            None => false,
            Some(i) => {
                assert(before.procedures[i as int].1 == self.procedures@[i as int].1.deep_view());
                let r = database::change_procedure(&mut self.procedures[i].1, name, sql.clone());
                assert(self.procedures.deep_view() =~= before.procedures.update(
                    i as int,
                    (before.procedures[i as int].0, self.procedures@[i as int].1.deep_view()),
                ));
                proof {
                    if r is Err {
                        assert(self.procedures.deep_view() =~= before.procedures);
                    }
                }
                r.is_ok()
            },
        }
    }

    fn step(&mut self, c: &WriteCommand, actual: &Store) -> (r: DbResult<bool>)
        requires
            actual.wf(),
        ensures
            match r {
                Ok(keep) => replay_step(old(self)@, c@, actual@) == Ok::<
                    (ReplayModel, bool),
                    Seq<char>,
                >((final(self)@, keep)),
                Err(e) => replay_step(old(self)@, c@, actual@) == Err::<
                    (ReplayModel, bool),
                    Seq<char>,
                >(e.message@),
            },
    {
        proof {
            reveal(replay_step);
        }
        match c {
            WriteCommand::CreateDatabase(name) => {
                if assoc::find_entry(&self.catalog, name.as_str()).is_some() {
                    return Ok(false);
                }
                let tables: Vec<(String, TableSchema)> = Vec::new();
                let routines: Vec<(String, ProcedureDefinition)> = Vec::new();
                assert(tables.deep_view() =~= Seq::empty());
                assert(routines.deep_view() =~= Seq::empty());
                assoc::set_entry(&mut self.catalog, name.as_str(), tables);
                assoc::set_entry(&mut self.procedures, name.as_str(), routines);
                Ok(true)
            },
            WriteCommand::DropDatabase(name) => {
                if assoc::find_entry(&self.catalog, name.as_str()).is_none() {
                    return Ok(false);
                }
                assoc::remove_entries(&mut self.catalog, name.as_str());
                assoc::remove_entries(&mut self.procedures, name.as_str());
                Ok(true)
            },
            WriteCommand::CreateTable { database, schema } => {
                match assoc::find_entry(&self.catalog, database.as_str()) {
                    None => {
                        return Ok(false);
                    },
                    Some(i) => {
                        assert(self@.catalog[i as int].1 == self.catalog@[i as int].1.deep_view());
                        if assoc::find_entry(&self.catalog[i].1, schema.name.as_str()).is_some() {
                            return Ok(false);
                        }
                    },
                }
                let copy = schema.clone();
                assoc::set_nested(
                    &mut self.catalog,
                    database.as_str(),
                    schema.name.as_str(),
                    copy,
                );
                Ok(true)
            },
            WriteCommand::DropTable { database, table } => {
                match assoc::find_entry(&self.catalog, database.as_str()) {
                    None => {
                        return Ok(false);
                    },
                    Some(i) => {
                        assert(self@.catalog[i as int].1 == self.catalog@[i as int].1.deep_view());
                        if assoc::find_entry(&self.catalog[i].1, table.as_str()).is_none() {
                            return Ok(false);
                        }
                    },
                }
                assoc::remove_nested(&mut self.catalog, database.as_str(), table.as_str());
                Ok(true)
            },
            WriteCommand::AlterTable { database, table, operation } => {
                let mut s = match validate::find_schema(
                    &self.catalog,
                    database.as_str(),
                    table.as_str(),
                ) {
                    None => {
                        return Ok(false);
                    },
                    Some(s) => s.clone(),
                };
                if altered::alter_operation_applied(&s, operation) {
                    return Ok(false);
                }
                match alter::apply_alter_schema(&mut s, operation) {
                    Err(e) => Err(e),
                    Ok(_) => {
                        assoc::set_nested(
                            &mut self.catalog,
                            database.as_str(),
                            table.as_str(),
                            s,
                        );
                        Ok(true)
                    },
                }
            },
            WriteCommand::Insert { database, table, row } => {
                match validate::find_schema(&self.catalog, database.as_str(), table.as_str()) {
                    None => Ok(false),
                    Some(s) => Ok(
                        !sqltext::is_memory_schema(s) && !has_stored_conflict(
                            actual,
                            database.as_str(),
                            table.as_str(),
                            row,
                            s,
                        ),
                    ),
                }
            },
            WriteCommand::Upsert { database, table, row: _, update_columns: _, ignore: _ } => Ok(
                self.is_durable(database.as_str(), table.as_str()),
            ),
            WriteCommand::Update { database, table, filter: _, assignments: _ } => Ok(
                self.is_durable(database.as_str(), table.as_str()),
            ),
            WriteCommand::ExpressionUpdate { database, table, filter: _, assignments: _ } => Ok(
                self.is_durable(database.as_str(), table.as_str()),
            ),
            WriteCommand::ReplaceRows { database, table, rows: _, affected_rows: _ } => Ok(
                self.is_durable(database.as_str(), table.as_str()),
            ),
            WriteCommand::Delete { database, table, filter: _ } => Ok(
                self.is_durable(database.as_str(), table.as_str()),
            ),
            WriteCommand::CleanupOrphanStorage => Ok(true),
            WriteCommand::ForeignKeyChecksDisabled => Ok(false),
            WriteCommand::CreateProcedure { database, procedure } => Ok(
                self.add_routine(database.as_str(), procedure),
            ),
            WriteCommand::DropProcedure { database, procedure } => Ok(
                self.remove_routine(database.as_str(), procedure.as_str()),
            ),
            WriteCommand::AlterProcedure { database, procedure, create_sql } => Ok(
                self.change_routine(database.as_str(), procedure.as_str(), create_sql),
            ),
            WriteCommand::CreateProcedureV2 { database, procedure, metadata: _ } => Ok(
                self.add_routine(database.as_str(), procedure),
            ),
            WriteCommand::AlterProcedureV2 { database, procedure, create_sql, metadata: _ } => Ok(
                self.change_routine(database.as_str(), procedure.as_str(), create_sql),
            ),
        }
    }
}

/// The commands from the `at`-th on that are to be replayed, behind those before them.
pub open spec fn normalized_from(
    state: ReplayModel,
    list: Seq<CommandModel>,
    actual: StoreModel,
    at: int,
    done: Seq<CommandModel>,
) -> Result<Seq<CommandModel>, Seq<char>>
    decreases list.len() - at,
{
    if at < 0 || at >= list.len() {
        Ok(done)
    } else {
        match replay_step(state, list[at], actual) {
            Err(e) => Err(e),
            Ok((next, keep)) => normalized_from(
                next,
                list,
                actual,
                at + 1,
                if keep {
                    done.push(list[at])
                } else {
                    done
                },
            ),
        }
    }
}

/// The commands of a logged batch that are to be replayed.
pub open spec fn normalized(list: Seq<CommandModel>, actual: StoreModel) -> Result<
    Seq<CommandModel>,
    Seq<char>,
> {
    normalized_from(
        ReplayModel {
            catalog: validate::catalog_of(actual),
            procedures: validate::procedures_of(actual),
        },
        list,
        actual,
        0,
        Seq::empty(),
    )
}

pub fn normalize_replay_commands(list: &Vec<WriteCommand>, actual: &Store) -> (r: DbResult<
    Vec<WriteCommand>,
>)
    requires
        actual.wf(),
    ensures
        error::outcome(r) == normalized(list.deep_view(), actual@),
{
    let ghost all = list.deep_view();
    let mut state = Replay {
        catalog: validate::copy_catalog(actual),
        procedures: validate::copy_routines(actual),
    };
    let mut out: Vec<WriteCommand> = Vec::new();
    let mut i: usize = 0;
    assert(out.deep_view() =~= Seq::empty());
    while i < list.len()
        invariant
            i <= list@.len(),
            actual.wf(),
            all == list.deep_view(),
            normalized_from(state@, all, actual@, i as int, out.deep_view()) == normalized(
                all,
                actual@,
            ),
        decreases list@.len() - i,
    {
        assert(all[i as int] == list@[i as int]@);
        match state.step(&list[i], actual) {
            Err(e) => {
                return Err(e);
            },
            Ok(keep) => {
                if keep {
                    let ghost before = out.deep_view();
                    let copy = list[i].clone();
                    out.push(copy);
                    assert(out.deep_view() =~= before.push(all[i as int]));
                }
            },
        }
        i += 1;
    }
    Ok(out)
}

// ---------------------------------------------------------------------------------------------
// Laws
// ---------------------------------------------------------------------------------------------
/// Rows of MEMORY tables, and of tables that are gone, are never replayed.
pub proof fn memory_rows_stay_lost(state: ReplayModel, c: CommandModel, actual: StoreModel)
    requires
        commands::rows_target(c) is Some,
        replay_step(state, c, actual) matches Ok((_, keep)) && keep,
    ensures
        durable(state, (commands::rows_target(c)->0).0, (commands::rows_target(c)->0).1),
{
    reveal(replay_step);
}

/// The commands that make or drop databases and tables, and those that make or drop procedures.
pub open spec fn defines(c: CommandModel) -> bool {
    match c {
        CommandModel::CreateDatabase(_) => true,
        CommandModel::DropDatabase(_) => true,
        CommandModel::CreateTable { .. } => true,
        CommandModel::DropTable { .. } => true,
        CommandModel::AlterTable { operation, .. } => altered::structural(operation),
        _ => false,
    }
}

/// A definition that was replayed is skipped when it is met again.
pub proof fn replayed_definition_is_skipped(
    state: ReplayModel,
    c: CommandModel,
    actual: StoreModel,
)
    requires
        defines(c),
        c matches CommandModel::AlterTable { database, table, operation } ==> match validate::schema_in(
            state.catalog,
            database,
            table,
        ) {
            Some(s) => altered::moves_names(operation) ==> altered::names_differ(s),
            None => true,
        },
        replay_step(state, c, actual) is Ok,
    ensures
        ({
            let next = (replay_step(state, c, actual)->Ok_0).0;
            replay_step(next, c, actual) == Ok::<(ReplayModel, bool), Seq<char>>((next, false))
        }),
{
    reveal(replay_step);
    let next = (replay_step(state, c, actual)->Ok_0).0;
    match c {
        CommandModel::CreateDatabase(name) => {
            assoc::set_then_lookup(state.catalog, name, Seq::empty(), name);
        },
        CommandModel::DropDatabase(name) => {
            assoc::remove_then_lookup(state.catalog, name, name);
        },
        CommandModel::CreateTable { database, schema } => {
            if assoc::lookup(state.catalog, database) is Some {
                let tables = assoc::lookup(state.catalog, database)->0;
                let more = assoc::with_entry(tables, schema.name, schema);
                assoc::set_then_lookup(state.catalog, database, more, database);
                assoc::set_then_lookup(tables, schema.name, schema, schema.name);
            }
        },
        CommandModel::DropTable { database, table } => {
            if assoc::lookup(state.catalog, database) is Some {
                let tables = assoc::lookup(state.catalog, database)->0;
                let fewer = assoc::without_entry(tables, table);
                assoc::set_then_lookup(state.catalog, database, fewer, database);
                assoc::remove_then_lookup(tables, table, table);
            }
        },
        CommandModel::AlterTable { database, table, operation } => {
            match validate::schema_in(state.catalog, database, table) {
                None => {},
                Some(s) => {
                    if !altered::applied(s, operation) {
                        let tables = assoc::lookup(state.catalog, database)->0;
                        let after = (alter::altered(s, operation)->Ok_0).0;
                        let more = assoc::with_entry(tables, table, after);
                        assoc::set_then_lookup(state.catalog, database, more, database);
                        assoc::set_then_lookup(tables, table, after, table);
                        altered::altered_is_applied(s, operation);
                    }
                },
            }
        },
        _ => {},
    }
}

// ---------------------------------------------------------------------------------------------
// One logged batch
// ---------------------------------------------------------------------------------------------
/// The tables whose rows the commands from the `at`-th on change, each once.
pub open spec fn changed_tables_from(
    list: Seq<CommandModel>,
    at: int,
    done: Seq<(Seq<char>, Seq<char>)>,
) -> Seq<(Seq<char>, Seq<char>)>
    decreases list.len() - at,
{
    if at < 0 || at >= list.len() {
        done
    } else {
        changed_tables_from(
            list,
            at + 1,
            match commands::rows_target(list[at]) {
                None => done,
                Some((d, t)) => pairs::pair_added(done, d, t),
            },
        )
    }
}

pub fn add_changed_tables(list: &Vec<WriteCommand>, out: &mut Vec<(String, String)>)
    ensures
        final(out).deep_view() == changed_tables_from(list.deep_view(), 0, old(out).deep_view()),
{
    let ghost all = list.deep_view();
    let ghost whole = changed_tables_from(all, 0, out.deep_view());
    let mut i: usize = 0;
    while i < list.len()
        invariant
            i <= list@.len(),
            all == list.deep_view(),
            changed_tables_from(all, i as int, out.deep_view()) == whole,
        decreases list@.len() - i,
    {
        assert(all[i as int] == list@[i as int]@);
        match commands::command_table(&list[i]) {
            None => {},
            Some(target) => {
                pairs::add_pair(out, target.0.as_str(), target.1.as_str());
            },
        }
        i += 1;
    }
}

pub fn changed_tables(list: &Vec<WriteCommand>) -> (r: Vec<(String, String)>)
    ensures
        r.deep_view() == changed_tables_from(list.deep_view(), 0, Seq::empty()),
{
    let mut out: Vec<(String, String)> = Vec::new();
    assert(out.deep_view() =~= Seq::empty());
    add_changed_tables(list, &mut out);
    out
}

/// The staged rows of the tables from the `at`-th on put on their pages. The first table that
/// fails ends it.
pub open spec fn checkpointed_from(
    s: StoreModel,
    tables: Seq<(Seq<char>, Seq<char>)>,
    cx: ContextModel,
    at: int,
) -> (StoreModel, Result<(), Seq<char>>)
    decreases tables.len() - at,
{
    if at < 0 || at >= tables.len() {
        (s, Ok(()))
    } else {
        match store::database_of(s, tables[at].0) {
            None => checkpointed_from(s, tables, cx, at + 1),
            Some(db) => match database::checkpointed(db, tables[at].1, cx.moment) {
                Err(e) => (s, Err(e)),
                Ok(after) => checkpointed_from(
                    assoc::with_entry(s, tables[at].0, after),
                    tables,
                    cx,
                    at + 1,
                ),
            },
        }
    }
}

#[verifier::loop_isolation(false)]
pub fn checkpoint_tables(s: &mut Store, tables: &Vec<(String, String)>, cx: &Context) -> (r: DbResult<
    (),
>)
    requires
        old(s).wf(),
    ensures
        final(s).wf(),
        final(s)@ == checkpointed_from(old(s)@, tables.deep_view(), cx@, 0).0,
        error::outcome(r) == checkpointed_from(old(s)@, tables.deep_view(), cx@, 0).1,
{
    let ghost all = tables.deep_view();
    let ghost whole = checkpointed_from(s@, all, cx@, 0);
    let mut i: usize = 0;
    while i < tables.len()
        invariant
            i <= tables@.len(),
            s.wf(),
            all == tables.deep_view(),
            checkpointed_from(s@, all, cx@, i as int) == whole,
        decreases tables@.len() - i,
    {
        assert(all[i as int] == (tables@[i as int].0@, tables@[i as int].1@));
        let ghost before = *s;
        match s.find(tables[i].0.as_str()) {
            None => {},
            Some(k) => {
                let r = s.databases[k].1.checkpoint_table(tables[i].1.as_str(), &cx.moment);
                proof {
                    store::store_changed_at(before, *s, k as int);
                }
                match r {
                    Err(e) => {
                        return Err(e);
                    },
                    Ok(_) => {},
                }
            },
        }
        i += 1;
    }
    Ok(())
}

/// What replaying a logged batch comes to: what is left of it is validated, applied, and put on
/// pages.
#[verifier::opaque]
pub open spec fn batch_replayed(s: StoreModel, list: Seq<CommandModel>, cx: ContextModel) -> (
    StoreModel,
    Result<(), Seq<char>>,
) {
    match normalized(list, s) {
        Err(e) => (s, Err(e)),
        Ok(left) => if left.len() == 0 {
            (s, Ok(()))
        } else {
            match batch::refused(left, s, cx) {
                Some(e) => (s, Err(e)),
                None => {
                    let (after, r) = apply::applied_batch(s, left, true, 0, cx);
                    match r {
                        Err(e) => (after, Err(e)),
                        Ok(_) => checkpointed_from(
                            after,
                            changed_tables_from(left, 0, Seq::empty()),
                            cx,
                            0,
                        ),
                    }
                },
            }
        },
    }
}

pub fn replay_batch(s: &mut Store, list: &Vec<WriteCommand>, cx: &Context) -> (r: DbResult<()>)
    requires
        old(s).wf(),
    ensures
        final(s).wf(),
        final(s)@ == batch_replayed(old(s)@, list.deep_view(), cx@).0,
        error::outcome(r) == batch_replayed(old(s)@, list.deep_view(), cx@).1,
{
    proof {
        reveal(batch_replayed);
    }
    let left = match normalize_replay_commands(list, s) {
        Err(e) => {
            return Err(e);
        },
        Ok(left) => left,
    };
    assert(left.deep_view().len() == left@.len());
    if left.len() == 0 {
        return Ok(());
    }
    let tables = changed_tables(&left);
    match batch::apply_write_batch(s, &left, true, true, 0, cx) {
        Err(e) => Err(e),
        Ok(_) => checkpoint_tables(s, &tables, cx),
    }
}

/// A batch all of whose commands were skipped changes nothing.
pub proof fn skipped_batch_changes_nothing(s: StoreModel, list: Seq<CommandModel>, cx: ContextModel)
    requires
        normalized(list, s) == Ok::<Seq<CommandModel>, Seq<char>>(Seq::empty()),
    ensures
        batch_replayed(s, list, cx) == (s, Ok::<(), Seq<char>>(())),
{
    reveal(batch_replayed);
}

} // verus!
