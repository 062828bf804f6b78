//! Validating and applying batches of write commands.
use crate::altercheck;
use crate::apply;
use crate::assoc;
use crate::commands::{CommandModel, WriteCommand, WriteResult};
use crate::database;
use crate::database::ProcedureList;
use crate::dmlcheck;
use crate::error;
use crate::error::{DbError, DbResult};
use crate::predicate::{Context, ContextModel};
use crate::schema::{ProcedureDefinition, ProcedureModel};
use crate::store;
use crate::store::{Store, StoreModel};
use crate::validate;
use crate::validate::{Shadow, ShadowModel};
use vstd::prelude::*;

verus! {

/// The shadow with the procedures of a database set.
pub open spec fn with_routines(sh: ShadowModel, d: Seq<char>, list: ProcedureList) -> ShadowModel {
    ShadowModel { procedures: assoc::with_entry(sh.procedures, d, list), ..sh }
}

#[verifier::opaque]
pub open spec fn create_procedure_step(sh: ShadowModel, d: Seq<char>, p: ProcedureModel) -> Result<
    ShadowModel,
    Seq<char>,
> {
    match assoc::lookup(sh.procedures, d) {
        None => Err(store::unknown_database(d)),
        Some(list) => match database::procedure_added(list, p) {
            Err(e) => Err(e),
            Ok(after) => Ok(with_routines(sh, d, after)),
        },
    }
}

#[verifier::opaque]
pub open spec fn drop_procedure_step(sh: ShadowModel, d: Seq<char>, name: Seq<char>) -> Result<
    ShadowModel,
    Seq<char>,
> {
    match assoc::lookup(sh.procedures, d) {
        None => Err(store::unknown_database(d)),
        Some(list) => match database::procedure_removed(list, name) {
            Err(e) => Err(e),
            Ok(after) => Ok(with_routines(sh, d, after)),
        },
    }
}

#[verifier::opaque]
pub open spec fn alter_procedure_step(
    sh: ShadowModel,
    d: Seq<char>,
    name: Seq<char>,
    sql: Seq<char>,
) -> Result<ShadowModel, Seq<char>> {
    match assoc::lookup(sh.procedures, d) {
        None => Err(store::unknown_database(d)),
        Some(list) => match database::procedure_changed(list, name, sql) {
            Err(e) => Err(e),
            Ok(after) => Ok(with_routines(sh, d, after)),
        },
    }
}

impl Shadow {
    fn create_procedure(&mut self, d: &str, p: &ProcedureDefinition) -> (r: DbResult<()>)
        ensures
            match r {
                Ok(_) => create_procedure_step(old(self)@, d@, p@) == Ok::<ShadowModel, Seq<char>>(
                    final(self)@,
                ),
                Err(e) => create_procedure_step(old(self)@, d@, p@) == Err::<
                    ShadowModel,
                    Seq<char>,
                >(e.message@),
            },
    {
        proof {
            reveal(create_procedure_step);
        }
        let ghost before = self@.procedures;
        match assoc::find_entry(&self.procedures, d) {
            None => Err(store::unknown_database_error(d)),
            Some(i) => {
                assert(before[i as int].1 == self.procedures@[i as int].1.deep_view());
                let r = database::add_procedure(&mut self.procedures[i].1, p.clone());
                assert(self.procedures.deep_view() =~= before.update(
                    i as int,
                    (before[i as int].0, self.procedures@[i as int].1.deep_view()),
                ));
                r
            },
        }
    }

    fn drop_procedure(&mut self, d: &str, name: &str) -> (r: DbResult<()>)
        ensures
            match r {
                Ok(_) => drop_procedure_step(old(self)@, d@, name@) == Ok::<
                    ShadowModel,
                    Seq<char>,
                >(final(self)@),
                Err(e) => drop_procedure_step(old(self)@, d@, name@) == Err::<
                    ShadowModel,
                    Seq<char>,
                >(e.message@),
            },
    {
        proof {
            reveal(drop_procedure_step);
        }
        let ghost before = self@.procedures;
        match assoc::find_entry(&self.procedures, d) {
            None => Err(store::unknown_database_error(d)),
            Some(i) => {
                assert(before[i as int].1 == self.procedures@[i as int].1.deep_view());
                let r = database::remove_procedure(&mut self.procedures[i].1, name);
                assert(self.procedures.deep_view() =~= before.update(
                    i as int,
                    (before[i as int].0, self.procedures@[i as int].1.deep_view()),
                ));
                match r {
                    Err(e) => Err(e),
                    Ok(_) => Ok(()),
                }
            },
        }
    }

    fn alter_procedure(&mut self, d: &str, name: &str, sql: &String) -> (r: DbResult<()>)
        ensures
            match r {
                Ok(_) => alter_procedure_step(old(self)@, d@, name@, sql@) == Ok::<
                    ShadowModel,
                    Seq<char>,
                >(final(self)@),
                Err(e) => alter_procedure_step(old(self)@, d@, name@, sql@) == Err::<
                    ShadowModel,
                    Seq<char>,
                >(e.message@),
            },
    {
        proof {
            reveal(alter_procedure_step);
        }
        let ghost before = self@.procedures;
        match assoc::find_entry(&self.procedures, d) {
            None => Err(store::unknown_database_error(d)),
            Some(i) => {
                assert(before[i as int].1 == self.procedures@[i as int].1.deep_view());
                let r = database::change_procedure(
                    &mut self.procedures[i].1,
                    name,
                    sql.clone(),
                );
                assert(self.procedures.deep_view() =~= before.update(
                    i as int,
                    (before[i as int].0, self.procedures@[i as int].1.deep_view()),
                ));
                match r {
                    Err(e) => Err(e),
                    Ok(_) => Ok(()),
                }
            },
        }
    }
}

/// What the shadow comes to with one command, or why the command is refused.
#[verifier::opaque]
pub open spec fn check_command(
    sh: ShadowModel,
    c: CommandModel,
    s: StoreModel,
    cx: ContextModel,
) -> Result<ShadowModel, Seq<char>> {
    match c {
        CommandModel::CreateDatabase(name) => validate::create_database_step(sh, name),
        CommandModel::DropDatabase(name) => validate::drop_database_step(sh, name),
        CommandModel::CreateTable { database, schema } => validate::create_table_step(
            sh,
            database,
            schema,
        ),
        CommandModel::DropTable { database, table } => validate::drop_table_step(
            sh,
            database,
            table,
        ),
        CommandModel::AlterTable { database, table, operation } => altercheck::alter_step(
            sh,
            database,
            table,
            operation,
            s,
            cx,
        ),
        CommandModel::Insert { database, table, row } => dmlcheck::insert_step(
            sh,
            database,
            table,
            row,
            s,
            cx,
        ),
        CommandModel::Upsert { database, table, row, update_columns, .. } => dmlcheck::upsert_step(
            sh,
            database,
            table,
            row,
            update_columns,
            s,
            cx,
        ),
        CommandModel::Update { database, table, filter, assignments } => dmlcheck::update_step(
            sh,
            database,
            table,
            filter,
            assignments,
            s,
            cx,
        ),
        CommandModel::ExpressionUpdate { database, table, filter, assignments } => {
            dmlcheck::expression_step(sh, database, table, filter, assignments, s, cx)
        },
        CommandModel::ReplaceRows { database, table, rows, .. } => dmlcheck::replace_step(
            sh,
            database,
            table,
            rows,
            s,
            cx,
        ),
        CommandModel::Delete { database, table, filter } => dmlcheck::delete_step(
            sh,
            database,
            table,
            filter,
            s,
            cx,
        ),
        CommandModel::CleanupOrphanStorage => Ok(sh),
        CommandModel::ForeignKeyChecksDisabled => Err(
            "foreign key session marker reached storage validation"@,
        ),
        CommandModel::CreateProcedure { database, procedure } => create_procedure_step(
            sh,
            database,
            procedure,
        ),
        CommandModel::DropProcedure { database, procedure } => drop_procedure_step(
            sh,
            database,
            procedure,
        ),
        CommandModel::AlterProcedure { database, procedure, create_sql } => alter_procedure_step(
            sh,
            database,
            procedure,
            create_sql,
        ),
        CommandModel::CreateProcedureV2 { database, procedure, .. } => create_procedure_step(
            sh,
            database,
            procedure,
        ),
        CommandModel::AlterProcedureV2 { database, procedure, create_sql, .. } => {
            alter_procedure_step(sh, database, procedure, create_sql)
        },
    }
}

impl Shadow {
    fn validate_command(&mut self, c: &WriteCommand, s: &Store, cx: &Context) -> (r: DbResult<()>)
        requires
            s.wf(),
        ensures
            match r {
                Ok(_) => check_command(old(self)@, c@, s@, cx@) == Ok::<ShadowModel, Seq<char>>(
                    final(self)@,
                ),
                Err(e) => check_command(old(self)@, c@, s@, cx@) == Err::<ShadowModel, Seq<char>>(
                    e.message@,
                ),
            },
    {
        proof {
            reveal(check_command);
        }
        match c {
            WriteCommand::CreateDatabase(name) => self.create_database(name.as_str()),
            WriteCommand::DropDatabase(name) => self.drop_database(name.as_str()),
            WriteCommand::CreateTable { database, schema } => self.create_table(
                database.as_str(),
                schema,
            ),
            WriteCommand::DropTable { database, table } => self.drop_table(
                database.as_str(),
                table.as_str(),
            ),
            WriteCommand::AlterTable { database, table, operation } => self.alter(
                database.as_str(),
                table.as_str(),
                operation,
                s,
                cx,
            ),
            WriteCommand::Insert { database, table, row } => self.insert(
                database.as_str(),
                table.as_str(),
                row,
                s,
                cx,
            ),
            WriteCommand::Upsert { database, table, row, update_columns, ignore: _ } => self.upsert(
                database.as_str(),
                table.as_str(),
                row,
                update_columns,
                s,
                cx,
            ),
            WriteCommand::Update { database, table, filter, assignments } => self.update(
                database.as_str(),
                table.as_str(),
                filter,
                assignments,
                s,
                cx,
            ),
            WriteCommand::ExpressionUpdate { database, table, filter, assignments } => {
                self.update_expressions(
                    database.as_str(),
                    table.as_str(),
                    filter,
                    assignments,
                    s,
                    cx,
                )
            },
            WriteCommand::ReplaceRows { database, table, rows, affected_rows: _ } => self.replace(
                database.as_str(),
                table.as_str(),
                rows,
                s,
                cx,
            ),
            WriteCommand::Delete { database, table, filter } => self.delete(
                database.as_str(),
                table.as_str(),
                filter,
                s,
                cx,
            ),
            WriteCommand::CleanupOrphanStorage => Ok(()),
            WriteCommand::ForeignKeyChecksDisabled => Err(
                DbError::of("foreign key session marker reached storage validation"),
            ),
            WriteCommand::CreateProcedure { database, procedure } => self.create_procedure(
                database.as_str(),
                procedure,
            ),
            WriteCommand::DropProcedure { database, procedure } => self.drop_procedure(
                database.as_str(),
                procedure.as_str(),
            ),
            WriteCommand::AlterProcedure { database, procedure, create_sql } => {
                self.alter_procedure(database.as_str(), procedure.as_str(), create_sql)
            },
            WriteCommand::CreateProcedureV2 { database, procedure, metadata: _ } => {
                self.create_procedure(database.as_str(), procedure)
            },
            WriteCommand::AlterProcedureV2 { database, procedure, create_sql, metadata: _ } => {
                self.alter_procedure(database.as_str(), procedure.as_str(), create_sql)
            },
        }
    }
}

/// Why the commands from the `at`-th on are refused, given what those before them have come to.
pub open spec fn refused_from(
    sh: ShadowModel,
    list: Seq<CommandModel>,
    s: StoreModel,
    cx: ContextModel,
    at: int,
) -> Option<Seq<char>>
    decreases list.len() - at,
{
    if at < 0 || at >= list.len() {
        None
    } else {
        match check_command(sh, list[at], s, cx) {
            Err(e) => Some(e),
            Ok(next) => refused_from(next, list, s, cx, at + 1),
        }
    }
}

/// Why a batch is refused: the first command that the store, as the commands before it would leave
/// it, cannot take.
pub open spec fn refused(list: Seq<CommandModel>, s: StoreModel, cx: ContextModel) -> Option<Seq<char>> {
    refused_from(validate::shadow_of(s), list, s, cx, 0)
}

pub fn validate_write_batch(list: &Vec<WriteCommand>, s: &Store, cx: &Context) -> (r: DbResult<()>)
    requires
        s.wf(),
    ensures
        match r {
            Ok(_) => refused(list.deep_view(), s@, cx@) is None,
            Err(e) => refused(list.deep_view(), s@, cx@) == Some(e.message@),
        },
{
    let ghost all = list.deep_view();
    let mut sh = Shadow {
        catalog: validate::copy_catalog(s),
        procedures: validate::copy_routines(s),
        keys: Vec::new(),
        checked: Vec::new(),
        altered: Vec::new(),
        reset_databases: Vec::new(),
        reset_tables: Vec::new(),
    };
    proof {
        assert(sh@.keys =~= Seq::empty());
        assert(sh@.checked =~= Seq::empty());
        assert(sh@.altered =~= Seq::empty());
        assert(sh@.reset_databases =~= Seq::empty());
        assert(sh@.reset_tables =~= Seq::empty());
        assert(sh@ =~= validate::shadow_of(s@));
    }
    let mut i: usize = 0;
    while i < list.len()
        invariant
            i <= list@.len(),
            s.wf(),
            all == list.deep_view(),
            refused_from(sh@, all, s@, cx@, i as int) == refused(all, s@, cx@),
        decreases list@.len() - i,
    {
        assert(all[i as int] == list@[i as int]@);
        match sh.validate_command(&list[i], s, cx) {
            Err(e) => {
                return Err(e);
            },
            Ok(_) => {},
        }
        i += 1;
    }
    Ok(())
}

/// Applies a batch to the store, validated before where `validate` asks for it. A batch that is
/// refused changes nothing; commands before one that fails have been applied.
pub fn apply_write_batch(
    s: &mut Store,
    list: &Vec<WriteCommand>,
    defer: bool,
    validate: bool,
    orphans: u64,
    cx: &Context,
) -> (r: DbResult<WriteResult>)
    requires
        old(s).wf(),
    ensures
        final(s).wf(),
        validate && refused(list.deep_view(), old(s)@, cx@) is Some ==> final(s)@ == old(s)@
            && error::outcome(r) == Err::<WriteResult, Seq<char>>(
            refused(list.deep_view(), old(s)@, cx@)->0,
        ),
        !(validate && refused(list.deep_view(), old(s)@, cx@) is Some) ==> final(s)@
            == apply::applied_batch(old(s)@, list.deep_view(), defer, orphans, cx@).0
            && error::outcome(r) == apply::applied_batch(
            old(s)@,
            list.deep_view(),
            defer,
            orphans,
            cx@,
        ).1,
{
    if validate {
        match validate_write_batch(list, s, cx) {
            Err(e) => {
                return Err(e);
            },
            Ok(_) => {},
        }
    }
    apply::apply_commands(s, list, defer, orphans, cx)
}

} // verus!
