//! Write commands: what a client asks of the store.
use crate::alter::{AlterTableOperation, OperationModel};
use crate::predicate::{PredicateModel, RowPredicate};
use crate::row;
use crate::row::{Row, RowModel};
use crate::schema;
use crate::schema::{
    KeyModel, MetadataModel, ProcedureDefinition, ProcedureMetadata, ProcedureModel, SchemaModel, TableSchema,
};
use crate::text;
use crate::values;
use crate::values::{AssignmentModel, ExpressionAssignment};
use vstd::prelude::*;

verus! {

#[derive(Debug)]
#[allow(inconsistent_fields)]
pub enum WriteCommand {
    CreateDatabase(String),
    DropDatabase(String),
    CreateTable { database: String, schema: TableSchema },
    DropTable { database: String, table: String },
    AlterTable { database: String, table: String, operation: AlterTableOperation },
    Insert { database: String, table: String, row: Row },
    Upsert {
        database: String,
        table: String,
        row: Row,
        update_columns: Vec<String>,
        ignore: bool,
    },
    Update {
        database: String,
        table: String,
        filter: Option<RowPredicate>,
        assignments: Vec<(String, Option<Vec<u8>>)>,
    },
    Delete { database: String, table: String, filter: Option<RowPredicate> },
    CleanupOrphanStorage,
    ExpressionUpdate {
        database: String,
        table: String,
        filter: Option<RowPredicate>,
        assignments: Vec<ExpressionAssignment>,
    },
    /// A full table image, for a limited mutation that must tell apart physically duplicated rows
    /// without a unique key.
    ReplaceRows { database: String, table: String, rows: Vec<Row>, affected_rows: u64 },
    /// A marker of one request. It is removed when the request is prepared, and never stored.
    ForeignKeyChecksDisabled,
    CreateProcedure { database: String, procedure: ProcedureDefinition },
    DropProcedure { database: String, procedure: String },
    AlterProcedure { database: String, procedure: String, create_sql: String },
    CreateProcedureV2 {
        database: String,
        procedure: ProcedureDefinition,
        metadata: ProcedureMetadata,
    },
    AlterProcedureV2 {
        database: String,
        procedure: String,
        create_sql: String,
        metadata: ProcedureMetadata,
    },
}

pub type SetModel = Seq<(Seq<char>, Option<Seq<u8>>)>;

#[allow(inconsistent_fields)]
pub enum CommandModel {
    CreateDatabase(Seq<char>),
    DropDatabase(Seq<char>),
    CreateTable { database: Seq<char>, schema: SchemaModel },
    DropTable { database: Seq<char>, table: Seq<char> },
    AlterTable { database: Seq<char>, table: Seq<char>, operation: OperationModel },
    Insert { database: Seq<char>, table: Seq<char>, row: RowModel },
    Upsert {
        database: Seq<char>,
        table: Seq<char>,
        row: RowModel,
        update_columns: Seq<Seq<char>>,
        ignore: bool,
    },
    Update {
        database: Seq<char>,
        table: Seq<char>,
        filter: Option<PredicateModel>,
        assignments: SetModel,
    },
    Delete { database: Seq<char>, table: Seq<char>, filter: Option<PredicateModel> },
    CleanupOrphanStorage,
    ExpressionUpdate {
        database: Seq<char>,
        table: Seq<char>,
        filter: Option<PredicateModel>,
        assignments: Seq<AssignmentModel>,
    },
    ReplaceRows {
        database: Seq<char>,
        table: Seq<char>,
        rows: Seq<RowModel>,
        affected_rows: u64,
    },
    ForeignKeyChecksDisabled,
    CreateProcedure { database: Seq<char>, procedure: ProcedureModel },
    DropProcedure { database: Seq<char>, procedure: Seq<char> },
    AlterProcedure { database: Seq<char>, procedure: Seq<char>, create_sql: Seq<char> },
    CreateProcedureV2 {
        database: Seq<char>,
        procedure: ProcedureModel,
        metadata: MetadataModel,
    },
    AlterProcedureV2 {
        database: Seq<char>,
        procedure: Seq<char>,
        create_sql: Seq<char>,
        metadata: MetadataModel,
    },
}

impl View for WriteCommand {
    type V = CommandModel;

    open spec fn view(&self) -> CommandModel {
        match self {
            WriteCommand::CreateDatabase(name) => CommandModel::CreateDatabase(name@),
            WriteCommand::DropDatabase(name) => CommandModel::DropDatabase(name@),
            WriteCommand::CreateTable { database, schema } => CommandModel::CreateTable {
                database: database@,
                schema: schema@,
            },
            WriteCommand::DropTable { database, table } => CommandModel::DropTable {
                database: database@,
                table: table@,
            },
            WriteCommand::AlterTable { database, table, operation } => CommandModel::AlterTable {
                database: database@,
                table: table@,
                operation: operation@,
            },
            WriteCommand::Insert { database, table, row } => CommandModel::Insert {
                database: database@,
                table: table@,
                row: row@,
            },
            WriteCommand::Upsert { database, table, row, update_columns, ignore } => {
                CommandModel::Upsert {
                    database: database@,
                    table: table@,
                    row: row@,
                    update_columns: update_columns.deep_view(),
                    ignore: *ignore,
                }
            },
            WriteCommand::Update { database, table, filter, assignments } => CommandModel::Update {
                database: database@,
                table: table@,
                filter: filter.deep_view(),
                assignments: assignments.deep_view(),
            },
            WriteCommand::Delete { database, table, filter } => CommandModel::Delete {
                database: database@,
                table: table@,
                filter: filter.deep_view(),
            },
            WriteCommand::CleanupOrphanStorage => CommandModel::CleanupOrphanStorage,
            WriteCommand::ExpressionUpdate { database, table, filter, assignments } => {
                CommandModel::ExpressionUpdate {
                    database: database@,
                    table: table@,
                    filter: filter.deep_view(),
                    assignments: assignments.deep_view(),
                }
            },
            WriteCommand::ReplaceRows { database, table, rows, affected_rows } => {
                CommandModel::ReplaceRows {
                    database: database@,
                    table: table@,
                    rows: rows.deep_view(),
                    affected_rows: *affected_rows,
                }
            },
            WriteCommand::ForeignKeyChecksDisabled => CommandModel::ForeignKeyChecksDisabled,
            WriteCommand::CreateProcedure { database, procedure } => {
                CommandModel::CreateProcedure { database: database@, procedure: procedure@ }
            },
            WriteCommand::DropProcedure { database, procedure } => CommandModel::DropProcedure {
                database: database@,
                procedure: procedure@,
            },
            WriteCommand::AlterProcedure { database, procedure, create_sql } => {
                CommandModel::AlterProcedure {
                    database: database@,
                    procedure: procedure@,
                    create_sql: create_sql@,
                }
            },
            WriteCommand::CreateProcedureV2 { database, procedure, metadata } => {
                CommandModel::CreateProcedureV2 {
                    database: database@,
                    procedure: procedure@,
                    metadata: metadata@,
                }
            },
            WriteCommand::AlterProcedureV2 { database, procedure, create_sql, metadata } => {
                CommandModel::AlterProcedureV2 {
                    database: database@,
                    procedure: procedure@,
                    create_sql: create_sql@,
                    metadata: metadata@,
                }
            },
        }
    }
}

impl DeepView for WriteCommand {
    type V = CommandModel;

    open spec fn deep_view(&self) -> CommandModel {
        self@
    }
}

pub fn copy_filter(f: &Option<RowPredicate>) -> (r: Option<RowPredicate>)
    ensures
        r.deep_view() == f.deep_view(),
{
    match f {
        Some(p) => Some(p.clone()),
        None => None,
    }
}

pub fn copy_rows(rows: &Vec<Row>) -> (r: Vec<Row>)
    ensures
        r.deep_view() == rows.deep_view(),
{
    let r = rows.clone();
    assert(r.deep_view() =~= rows.deep_view());
    r
}

/// The model of assigned bytes.
pub proof fn value_model(v: Option<Vec<u8>>)
    ensures
        v.deep_view() == values::bytes_option(v),
{
    match v {
        Some(b) => row::bytes_model(b),
        None => {},
    }
}

pub fn copy_sets(list: &Vec<(String, Option<Vec<u8>>)>) -> (r: Vec<(String, Option<Vec<u8>>)>)
    ensures
        r.deep_view() == list.deep_view(),
{
    let mut out: Vec<(String, Option<Vec<u8>>)> = Vec::new();
    let mut i: usize = 0;
    while i < list.len()
        invariant
            i <= list@.len(),
            out@.len() == i,
            forall|j: int| 0 <= j < i ==> out.deep_view()[j] == list.deep_view()[j],
        decreases list@.len() - i,
    {
        let ghost before = out.deep_view();
        let value = values::copy_bytes_option(&list[i].1);
        proof {
            value_model(value);
            value_model(list@[i as int].1);
        }
        out.push((list[i].0.clone(), value));
        assert(out.deep_view() =~= before.push(list.deep_view()[i as int]));
        i += 1;
    }
    assert(out.deep_view() =~= list.deep_view());
    out
}

impl Clone for WriteCommand {
    fn clone(&self) -> (r: Self)
        ensures
            r@ == self@,
    {
        match self {
            WriteCommand::CreateDatabase(name) => WriteCommand::CreateDatabase(name.clone()),
            WriteCommand::DropDatabase(name) => WriteCommand::DropDatabase(name.clone()),
            WriteCommand::CreateTable { database, schema } => WriteCommand::CreateTable {
                database: database.clone(),
                schema: schema.clone(),
            },
            WriteCommand::DropTable { database, table } => WriteCommand::DropTable {
                database: database.clone(),
                table: table.clone(),
            },
            WriteCommand::AlterTable { database, table, operation } => WriteCommand::AlterTable {
                database: database.clone(),
                table: table.clone(),
                operation: operation.clone(),
            },
            WriteCommand::Insert { database, table, row } => WriteCommand::Insert {
                database: database.clone(),
                table: table.clone(),
                row: row.clone(),
            },
            WriteCommand::Upsert { database, table, row, update_columns, ignore } => {
                WriteCommand::Upsert {
                    database: database.clone(),
                    table: table.clone(),
                    row: row.clone(),
                    update_columns: row::copy_names(update_columns),
                    ignore: *ignore,
                }
            },
            WriteCommand::Update { database, table, filter, assignments } => WriteCommand::Update {
                database: database.clone(),
                table: table.clone(),
                filter: copy_filter(filter),
                assignments: copy_sets(assignments),
            },
            WriteCommand::Delete { database, table, filter } => WriteCommand::Delete {
                database: database.clone(),
                table: table.clone(),
                filter: copy_filter(filter),
            },
            WriteCommand::CleanupOrphanStorage => WriteCommand::CleanupOrphanStorage,
            WriteCommand::ExpressionUpdate { database, table, filter, assignments } => {
                let list = assignments.clone();
                assert(list.deep_view() =~= assignments.deep_view());
                WriteCommand::ExpressionUpdate {
                    database: database.clone(),
                    table: table.clone(),
                    filter: copy_filter(filter),
                    assignments: list,
                }
            },
            WriteCommand::ReplaceRows { database, table, rows, affected_rows } => {
                WriteCommand::ReplaceRows {
                    database: database.clone(),
                    table: table.clone(),
                    rows: copy_rows(rows),
                    affected_rows: *affected_rows,
                }
            },
            WriteCommand::ForeignKeyChecksDisabled => WriteCommand::ForeignKeyChecksDisabled,
            WriteCommand::CreateProcedure { database, procedure } => {
                WriteCommand::CreateProcedure {
                    database: database.clone(),
                    procedure: procedure.clone(),
                }
            },
            WriteCommand::DropProcedure { database, procedure } => WriteCommand::DropProcedure {
                database: database.clone(),
                procedure: procedure.clone(),
            },
            WriteCommand::AlterProcedure { database, procedure, create_sql } => {
                WriteCommand::AlterProcedure {
                    database: database.clone(),
                    procedure: procedure.clone(),
                    create_sql: create_sql.clone(),
                }
            },
            WriteCommand::CreateProcedureV2 { database, procedure, metadata } => {
                WriteCommand::CreateProcedureV2 {
                    database: database.clone(),
                    procedure: procedure.clone(),
                    metadata: metadata.clone(),
                }
            },
            WriteCommand::AlterProcedureV2 { database, procedure, create_sql, metadata } => {
                WriteCommand::AlterProcedureV2 {
                    database: database.clone(),
                    procedure: procedure.clone(),
                    create_sql: create_sql.clone(),
                    metadata: metadata.clone(),
                }
            },
        }
    }
}

pub fn copy_commands(list: &Vec<WriteCommand>) -> (r: Vec<WriteCommand>)
    ensures
        r.deep_view() == list.deep_view(),
{
    let r = list.clone();
    assert(r.deep_view() =~= list.deep_view());
    r
}

/// What a request did: how many rows it changed, and the first number that it generated.
#[derive(Debug, Clone, Copy, PartialEq, Eq, Structural)]
pub struct WriteResult {
    pub affected_rows: u64,
    pub last_insert_id: u64,
}

impl DeepView for WriteResult {
    type V = WriteResult;

    open spec fn deep_view(&self) -> WriteResult {
        *self
    }
}

#[derive(Debug)]
pub struct PreparedTransactionBatch {
    pub commands: Vec<WriteCommand>,
    pub last_insert_id: u64,
}

// ---------------------------------------------------------------------------------------------
// Kinds of commands
// ---------------------------------------------------------------------------------------------
/// The database and the table whose rows a command changes.
pub open spec fn rows_target(c: CommandModel) -> Option<(Seq<char>, Seq<char>)> {
    match c {
        CommandModel::Insert { database, table, .. } => Some((database, table)),
        CommandModel::Upsert { database, table, .. } => Some((database, table)),
        CommandModel::Update { database, table, .. } => Some((database, table)),
        CommandModel::ExpressionUpdate { database, table, .. } => Some((database, table)),
        CommandModel::ReplaceRows { database, table, .. } => Some((database, table)),
        CommandModel::Delete { database, table, .. } => Some((database, table)),
        _ => None,
    }
}

pub fn command_table(c: &WriteCommand) -> (r: Option<(String, String)>)
    ensures
        r.deep_view() == rows_target(c@),
{
    match c {
        WriteCommand::Insert { database, table, .. } => Some((database.clone(), table.clone())),
        WriteCommand::Upsert { database, table, .. } => Some((database.clone(), table.clone())),
        WriteCommand::Update { database, table, .. } => Some((database.clone(), table.clone())),
        WriteCommand::ExpressionUpdate { database, table, .. } => Some(
            (database.clone(), table.clone()),
        ),
        WriteCommand::ReplaceRows { database, table, .. } => Some(
            (database.clone(), table.clone()),
        ),
        WriteCommand::Delete { database, table, .. } => Some((database.clone(), table.clone())),
        _ => None,
    }
}

pub open spec fn all_inserts(list: Seq<CommandModel>) -> bool {
    forall|i: int| 0 <= i < list.len() ==> (#[trigger] list[i]) is Insert
}

pub fn commands_are_inserts(list: &Vec<WriteCommand>) -> (r: bool)
    ensures
        r == all_inserts(list.deep_view()),
{
    let mut i: usize = 0;
    while i < list.len()
        invariant
            i <= list@.len(),
            forall|j: int| 0 <= j < i ==> (#[trigger] list.deep_view()[j]) is Insert,
        decreases list@.len() - i,
    {
        let insert = match &list[i] {
            WriteCommand::Insert { .. } => true,
            _ => false,
        };
        assert(list.deep_view()[i as int] is Insert == insert);
        if !insert {
            return false;
        }
        i += 1;
    }
    true
}

/// Whether every command changes rows that exist, so that it can be checked on its own.
pub open spec fn all_independent(list: Seq<CommandModel>) -> bool {
    forall|i: int|
        0 <= i < list.len() ==> rows_target(#[trigger] list[i]) is Some && !(list[i] is Insert)
}

pub fn commands_are_independent(list: &Vec<WriteCommand>) -> (r: bool)
    ensures
        r == all_independent(list.deep_view()),
{
    let mut i: usize = 0;
    while i < list.len()
        invariant
            i <= list@.len(),
            forall|j: int|
                0 <= j < i ==> rows_target(#[trigger] list.deep_view()[j]) is Some && !(
                list.deep_view()[j] is Insert),
        decreases list@.len() - i,
    {
        let independent = match &list[i] {
            WriteCommand::Upsert { .. } => true,
            WriteCommand::Update { .. } => true,
            WriteCommand::ExpressionUpdate { .. } => true,
            WriteCommand::ReplaceRows { .. } => true,
            WriteCommand::Delete { .. } => true,
            _ => false,
        };
        assert((rows_target(list.deep_view()[i as int]) is Some && !(
        list.deep_view()[i as int] is Insert)) == independent);
        if !independent {
            return false;
        }
        i += 1;
    }
    true
}

/// Whether every command changes rows only, so that storing them can wait for a checkpoint.
pub open spec fn all_rows_only(list: Seq<CommandModel>) -> bool {
    forall|i: int| 0 <= i < list.len() ==> rows_target(#[trigger] list[i]) is Some
}

pub fn commands_change_rows_only(list: &Vec<WriteCommand>) -> (r: bool)
    ensures
        r == all_rows_only(list.deep_view()),
{
    let mut i: usize = 0;
    while i < list.len()
        invariant
            i <= list@.len(),
            forall|j: int| 0 <= j < i ==> rows_target(#[trigger] list.deep_view()[j]) is Some,
        decreases list@.len() - i,
    {
        assert(list.deep_view()[i as int] == list@[i as int]@);
        if command_table(&list[i]).is_none() {
            return false;
        }
        i += 1;
    }
    true
}

// ---------------------------------------------------------------------------------------------
// Rows that cannot stand together
// ---------------------------------------------------------------------------------------------
/// Whether two rows have the same key for one of the constraints.
pub open spec fn share_key(a: RowModel, b: RowModel, keys: Seq<KeyModel>) -> bool {
    exists|i: int|
        0 <= i < keys.len() && values::key(a, (#[trigger] keys[i]).columns) is Some && values::key(
            a,
            keys[i].columns,
        ) == values::key(b, keys[i].columns)
}

pub fn rows_share_key(a: &Row, b: &Row, keys: &Vec<schema::KeyConstraint>) -> (r: bool)
    ensures
        r == share_key(a@, b@, keys.deep_view()),
{
    let mut i: usize = 0;
    while i < keys.len()
        invariant
            i <= keys@.len(),
            forall|j: int|
                0 <= j < i ==> !(values::key(a@, (#[trigger] keys.deep_view()[j]).columns) is Some
                    && values::key(a@, keys.deep_view()[j].columns) == values::key(
                    b@,
                    keys.deep_view()[j].columns,
                )),
        decreases keys@.len() - i,
    {
        assert(keys.deep_view()[i as int] == keys@[i as int]@);
        let x = values::encode_key(a, &keys[i].columns);
        let y = values::encode_key(b, &keys[i].columns);
        match (&x, &y) {
            (Some(p), Some(q)) => {
                if text::bytes_equal(p.as_slice(), q.as_slice()) {
                    return true;
                }
            },
            _ => {},
        }
        i += 1;
    }
    false
}

/// Whether two rows cannot both stand in a table: they share a key, or are equal where the table
/// has no key.
pub open spec fn conflict(a: RowModel, b: RowModel, s: SchemaModel) -> bool {
    if schema::keys(s).len() == 0 {
        a == b
    } else {
        share_key(a, b, schema::keys(s))
    }
}

pub fn rows_have_constraint_conflict(a: &Row, b: &Row, s: &TableSchema) -> (r: bool)
    ensures
        r == conflict(a@, b@, s@),
{
    let keys = schema::key_constraints(s);
    assert(keys.deep_view().len() == keys@.len());
    if keys.len() == 0 {
        a == b
    } else {
        rows_share_key(a, b, &keys)
    }
}

} // verus!
