//! The write-ahead log: how batches and groups of commands are framed, which logged entries are
//! replayed, and in which order.
use crate::alter::AlterTableOperation;
use crate::codec;
use crate::commands;
use crate::commands::{CommandModel, WriteCommand};
use crate::error;
use crate::error::{DbError, DbResult};
use crate::num;
use crate::predicate::{Context, ContextModel, RowPredicate};
use crate::replay;
use crate::row::Row;
use crate::schema::{Column, Index, SchemaModel, TableEngine, TableSchema};
use crate::store::{Store, StoreModel};
use crate::text;
use crate::values::ExpressionAssignment;
use vstd::prelude::*;

verus! {

pub const WAL_BATCH_VERSION: u16 = 2;

pub const WAL_GROUP_VERSION: u16 = 2;

// ---------------------------------------------------------------------------------------------
// Frames
// ---------------------------------------------------------------------------------------------
/// `MDB2`, in front of a batch in binary form.
pub open spec fn batch_magic() -> Seq<u8> {
    seq![77u8, 68u8, 66u8, 50u8]
}

/// `MDG1`, in front of a group without a time.
pub open spec fn group_magic_v1() -> Seq<u8> {
    seq![77u8, 68u8, 71u8, 49u8]
}

/// `MDG2`, in front of a group with the time of its commit.
pub open spec fn group_magic_v2() -> Seq<u8> {
    seq![77u8, 68u8, 71u8, 50u8]
}

pub open spec fn starts(b: Seq<u8>, magic: Seq<u8>) -> bool {
    b.len() >= magic.len() && b.take(magic.len() as int) == magic
}

pub open spec fn behind(b: Seq<u8>, magic: Seq<u8>) -> Seq<u8> {
    b.skip(magic.len() as int)
}

fn has_magic(b: &[u8], last: u8, kind: u8) -> (r: bool)
    ensures
        r == starts(b@, seq![77u8, 68u8, kind, last]),
{
    let r = b.len() >= 4 && b[0] == 77 && b[1] == 68 && b[2] == kind && b[3] == last;
    proof {
        let magic = seq![77u8, 68u8, kind, last];
        if b@.len() >= 4 {
            let first = b@.take(4);
            assert(first[0] == b@[0] && first[1] == b@[1] && first[2] == b@[2] && first[3]
                == b@[3]);
            if r {
                assert(first =~= magic);
            } else {
                assert(magic[0] == 77u8 && magic[1] == 68u8 && magic[2] == kind && magic[3]
                    == last);
            }
        }
    }
    r
}

fn after_magic(b: &[u8]) -> (r: Vec<u8>)
    requires
        b@.len() >= 4,
    ensures
        r@ == b@.skip(4),
{
    let r = codec::sub_bytes(b, 4, b.len());
    assert(b@.subrange(4, b@.len() as int) =~= b@.skip(4));
    r
}

fn with_magic(kind: u8, last: u8, encoded: &[u8]) -> (r: Vec<u8>)
    ensures
        r@ == seq![77u8, 68u8, kind, last] + encoded@,
{
    let mut out: Vec<u8> = Vec::new();
    out.push(77);
    out.push(68);
    out.push(kind);
    out.push(last);
    assert(out@ =~= seq![77u8, 68u8, kind, last]);
    let mut rest = text::copy_bytes(encoded);
    out.append(&mut rest);
    out
}

/// What a logged batch holds: commands in binary form, or in the JSON of the first version.
#[derive(Debug)]
pub enum BatchPayload {
    Binary(Vec<u8>),
    Json(Vec<u8>),
}

pub enum BatchPayloadModel {
    Binary(Seq<u8>),
    Json(Seq<u8>),
}

impl View for BatchPayload {
    type V = BatchPayloadModel;

    open spec fn view(&self) -> BatchPayloadModel {
        match self {
            BatchPayload::Binary(b) => BatchPayloadModel::Binary(b@),
            BatchPayload::Json(b) => BatchPayloadModel::Json(b@),
        }
    }
}

pub open spec fn batch_payload(b: Seq<u8>) -> BatchPayloadModel {
    if starts(b, batch_magic()) {
        BatchPayloadModel::Binary(behind(b, batch_magic()))
    } else {
        BatchPayloadModel::Json(b)
    }
}

pub fn open_wal_batch(payload: &[u8]) -> (r: BatchPayload)
    ensures
        r@ == batch_payload(payload@),
{
    if has_magic(payload, 50, 66) {
        BatchPayload::Binary(after_magic(payload))
    } else {
        BatchPayload::Json(text::copy_bytes(payload))
    }
}

pub fn frame_wal_batch(encoded: &[u8]) -> (r: Vec<u8>)
    ensures
        r@ == batch_magic() + encoded@,
{
    with_magic(66, 50, encoded)
}

/// What a logged group holds: transactions with the time of their commit, or without.
#[derive(Debug)]
pub enum GroupPayload {
    Timed(Vec<u8>),
    Untimed(Vec<u8>),
}

pub enum GroupPayloadModel {
    Timed(Seq<u8>),
    Untimed(Seq<u8>),
}

impl View for GroupPayload {
    type V = GroupPayloadModel;

    open spec fn view(&self) -> GroupPayloadModel {
        match self {
            GroupPayload::Timed(b) => GroupPayloadModel::Timed(b@),
            GroupPayload::Untimed(b) => GroupPayloadModel::Untimed(b@),
        }
    }
}

impl DeepView for GroupPayload {
    type V = GroupPayloadModel;

    open spec fn deep_view(&self) -> GroupPayloadModel {
        self@
    }
}

pub open spec fn group_payload(b: Seq<u8>) -> Result<GroupPayloadModel, Seq<char>> {
    if starts(b, group_magic_v2()) {
        Ok(GroupPayloadModel::Timed(behind(b, group_magic_v2())))
    } else if starts(b, group_magic_v1()) {
        Ok(GroupPayloadModel::Untimed(behind(b, group_magic_v1())))
    } else {
        Err("invalid WAL group magic"@)
    }
}

pub fn open_wal_group(payload: &[u8]) -> (r: DbResult<GroupPayload>)
    ensures
        error::outcome(r) == group_payload(payload@),
{
    if has_magic(payload, 50, 71) {
        Ok(GroupPayload::Timed(after_magic(payload)))
    } else if has_magic(payload, 49, 71) {
        Ok(GroupPayload::Untimed(after_magic(payload)))
    } else {
        Err(DbError::of("invalid WAL group magic"))
    }
}

pub fn frame_wal_group(encoded: &[u8]) -> (r: Vec<u8>)
    ensures
        r@ == group_magic_v2() + encoded@,
{
    with_magic(71, 50, encoded)
}

/// What was framed is found again.
pub proof fn frames_open(encoded: Seq<u8>)
    ensures
        batch_payload(batch_magic() + encoded) == BatchPayloadModel::Binary(encoded),
        group_payload(group_magic_v2() + encoded) == Ok::<GroupPayloadModel, Seq<char>>(
            GroupPayloadModel::Timed(encoded),
        ),
        group_payload(group_magic_v1() + encoded) == Ok::<GroupPayloadModel, Seq<char>>(
            GroupPayloadModel::Untimed(encoded),
        ),
{
    let b = batch_magic() + encoded;
    assert(b.take(4) =~= batch_magic());
    assert(b.skip(4) =~= encoded);
    let g = group_magic_v2() + encoded;
    assert(g.take(4) =~= group_magic_v2());
    assert(g.skip(4) =~= encoded);
    let h = group_magic_v1() + encoded;
    assert(h.take(4) =~= group_magic_v1());
    assert(h.skip(4) =~= encoded);
    assert(group_magic_v1()[3] == 49u8);
    assert(group_magic_v2()[3] == 50u8);
}

// ---------------------------------------------------------------------------------------------
// Commands from before triggers
// ---------------------------------------------------------------------------------------------
/// A table definition from before triggers.
#[derive(Debug)]
pub struct LegacyTableSchema {
    pub name: String,
    pub columns: Vec<Column>,
    pub primary_key: Option<Vec<String>>,
    pub indexes: Vec<Index>,
    pub next_page_number: u32,
    pub generation: u64,
    pub create_sql: Option<String>,
    pub engine: TableEngine,
}

impl LegacyTableSchema {
    /// The same table, without triggers.
    pub open spec fn upgraded(self) -> SchemaModel {
        SchemaModel {
            name: self.name@,
            columns: self.columns.deep_view(),
            primary_key: self.primary_key.deep_view(),
            indexes: self.indexes.deep_view(),
            next_page_number: self.next_page_number,
            generation: self.generation,
            create_sql: self.create_sql.deep_view(),
            engine: self.engine,
            triggers: Seq::empty(),
        }
    }

    pub fn into_schema(self) -> (r: TableSchema)
        ensures
            r@ == self.upgraded(),
    {
        let r = TableSchema {
            name: self.name,
            columns: self.columns,
            primary_key: self.primary_key,
            indexes: self.indexes,
            next_page_number: self.next_page_number,
            generation: self.generation,
            create_sql: self.create_sql,
            engine: self.engine,
            triggers: Vec::new(),
        };
        assert(r.triggers.deep_view() =~= Seq::empty());
        r
    }
}

/// A command from before triggers and procedures.
#[derive(Debug)]
#[allow(inconsistent_fields)]
pub enum LegacyWriteCommand {
    CreateDatabase(String),
    DropDatabase(String),
    CreateTable { database: String, schema: LegacyTableSchema },
    DropTable { database: String, table: String },
    AlterTable { database: String, table: String, operation: AlterTableOperation },
    Insert { database: String, table: String, row: Row },
    Upsert {
        database: String,
        table: String,
        row: Row,
        update_columns: Vec<String>,
        ignore: bool,
    },
    Update {
        database: String,
        table: String,
        filter: Option<RowPredicate>,
        assignments: Vec<(String, Option<Vec<u8>>)>,
    },
    Delete { database: String, table: String, filter: Option<RowPredicate> },
    CleanupOrphanStorage,
    ExpressionUpdate {
        database: String,
        table: String,
        filter: Option<RowPredicate>,
        assignments: Vec<ExpressionAssignment>,
    },
    ReplaceRows { database: String, table: String, rows: Vec<Row>, affected_rows: u64 },
    ForeignKeyChecksDisabled,
}

impl LegacyWriteCommand {
    /// The same command as it is written today.
    pub open spec fn upgraded(self) -> CommandModel {
        match self {
            LegacyWriteCommand::CreateDatabase(name) => CommandModel::CreateDatabase(name@),
            LegacyWriteCommand::DropDatabase(name) => CommandModel::DropDatabase(name@),
            LegacyWriteCommand::CreateTable { database, schema } => CommandModel::CreateTable {
                database: database@,
                schema: schema.upgraded(),
            },
            LegacyWriteCommand::DropTable { database, table } => CommandModel::DropTable {
                database: database@,
                table: table@,
            },
            LegacyWriteCommand::AlterTable { database, table, operation } => {
                CommandModel::AlterTable {
                    database: database@,
                    table: table@,
                    operation: operation@,
                }
            },
            LegacyWriteCommand::Insert { database, table, row } => CommandModel::Insert {
                database: database@,
                table: table@,
                row: row@,
            },
            LegacyWriteCommand::Upsert { database, table, row, update_columns, ignore } => {
                CommandModel::Upsert {
                    database: database@,
                    table: table@,
                    row: row@,
                    update_columns: update_columns.deep_view(),
                    ignore: ignore,
                }
            },
            LegacyWriteCommand::Update { database, table, filter, assignments } => {
                CommandModel::Update {
                    database: database@,
                    table: table@,
                    filter: filter.deep_view(),
                    assignments: assignments.deep_view(),
                }
            },
            LegacyWriteCommand::Delete { database, table, filter } => CommandModel::Delete {
                database: database@,
                table: table@,
                filter: filter.deep_view(),
            },
            LegacyWriteCommand::CleanupOrphanStorage => CommandModel::CleanupOrphanStorage,
            LegacyWriteCommand::ExpressionUpdate { database, table, filter, assignments } => {
                CommandModel::ExpressionUpdate {
                    database: database@,
                    table: table@,
                    filter: filter.deep_view(),
                    assignments: assignments.deep_view(),
                }
            },
            LegacyWriteCommand::ReplaceRows { database, table, rows, affected_rows } => {
                CommandModel::ReplaceRows {
                    database: database@,
                    table: table@,
                    rows: rows.deep_view(),
                    affected_rows: affected_rows,
                }
            },
            LegacyWriteCommand::ForeignKeyChecksDisabled => CommandModel::ForeignKeyChecksDisabled,
        }
    }

    pub fn into_command(self) -> (r: WriteCommand)
        ensures
            r@ == self.upgraded(),
    {
        match self {
            LegacyWriteCommand::CreateDatabase(name) => WriteCommand::CreateDatabase(name),
            LegacyWriteCommand::DropDatabase(name) => WriteCommand::DropDatabase(name),
            LegacyWriteCommand::CreateTable { database, schema } => WriteCommand::CreateTable {
                database: database,
                schema: schema.into_schema(),
            },
            LegacyWriteCommand::DropTable { database, table } => WriteCommand::DropTable {
                database: database,
                table: table,
            },
            LegacyWriteCommand::AlterTable { database, table, operation } => {
                WriteCommand::AlterTable { database: database, table: table, operation: operation }
            },
            LegacyWriteCommand::Insert { database, table, row } => WriteCommand::Insert {
                database: database,
                table: table,
                row: row,
            },
            LegacyWriteCommand::Upsert { database, table, row, update_columns, ignore } => {
                WriteCommand::Upsert {
                    database: database,
                    table: table,
                    row: row,
                    update_columns: update_columns,
                    ignore: ignore,
                }
            },
            LegacyWriteCommand::Update { database, table, filter, assignments } => {
                WriteCommand::Update {
                    database: database,
                    table: table,
                    filter: filter,
                    assignments: assignments,
                }
            },
            LegacyWriteCommand::Delete { database, table, filter } => WriteCommand::Delete {
                database: database,
                table: table,
                filter: filter,
            },
            LegacyWriteCommand::CleanupOrphanStorage => WriteCommand::CleanupOrphanStorage,
            LegacyWriteCommand::ExpressionUpdate { database, table, filter, assignments } => {
                WriteCommand::ExpressionUpdate {
                    database: database,
                    table: table,
                    filter: filter,
                    assignments: assignments,
                }
            },
            LegacyWriteCommand::ReplaceRows { database, table, rows, affected_rows } => {
                WriteCommand::ReplaceRows {
                    database: database,
                    table: table,
                    rows: rows,
                    affected_rows: affected_rows,
                }
            },
            LegacyWriteCommand::ForeignKeyChecksDisabled => WriteCommand::ForeignKeyChecksDisabled,
        }
    }
}

impl DeepView for LegacyWriteCommand {
    type V = CommandModel;

    open spec fn deep_view(&self) -> CommandModel {
        self.upgraded()
    }
}

/// Commands from before triggers, as they are written today.
pub fn upgrade_commands(list: Vec<LegacyWriteCommand>) -> (r: Vec<WriteCommand>)
    ensures
        r.deep_view() == list.deep_view(),
{
    let ghost target = list.deep_view();
    let mut out: Vec<WriteCommand> = Vec::new();
    let mut left = list;
    let ghost count = left@.len();
    while left.len() > 0
        invariant
            left@.len() <= count,
            count == target.len(),
            left.deep_view() == target.take(left@.len() as int),
            out.deep_view() == target.skip(left@.len() as int).reverse(),
        decreases left@.len(),
    {
        let ghost n = left@.len() as int;
        let ghost before = out.deep_view();
        match left.pop() {
            None => {},
            Some(c) => {
                assert(target.take(n)[n - 1] == c.upgraded());
                let made = c.into_command();
                out.push(made);
                assert(out.deep_view() =~= before.push(target[n - 1]));
                assert(out.deep_view() =~= target.skip(n - 1).reverse());
                assert(left.deep_view() =~= target.take(n - 1));
            },
        }
    }
    assert(target.skip(0) =~= target);
    let mut back: Vec<WriteCommand> = Vec::new();
    let ghost turned = out.deep_view();
    let ghost total = out@.len();
    while out.len() > 0
        invariant
            out@.len() <= total,
            total == turned.len(),
            out.deep_view() == turned.take(out@.len() as int),
            back.deep_view() == turned.skip(out@.len() as int).reverse(),
        decreases out@.len(),
    {
        let ghost n = out@.len() as int;
        let ghost before = back.deep_view();
        match out.pop() {
            None => {},
            Some(c) => {
                assert(turned.take(n)[n - 1] == c@);
                back.push(c);
                assert(back.deep_view() =~= before.push(turned[n - 1]));
                assert(back.deep_view() =~= turned.skip(n - 1).reverse());
                assert(out.deep_view() =~= turned.take(n - 1));
            },
        }
    }
    assert(turned.skip(0) =~= turned);
    assert(back.deep_view() =~= target);
    back
}

fn upgrade_transactions(list: Vec<Vec<LegacyWriteCommand>>) -> (r: Vec<Vec<WriteCommand>>)
    ensures
        r.deep_view() == list.deep_view(),
{
    let ghost target = list.deep_view();
    let mut left = list;
    let mut out: Vec<Vec<WriteCommand>> = Vec::new();
    let ghost count = left@.len();
    while left.len() > 0
        invariant
            left@.len() <= count,
            count == target.len(),
            left.deep_view() == target.take(left@.len() as int),
            out.deep_view() == target.skip(left@.len() as int),
        decreases left@.len(),
    {
        let ghost n = left@.len() as int;
        let ghost before = out.deep_view();
        match left.pop() {
            None => {},
            Some(one) => {
                assert(target.take(n)[n - 1] == one.deep_view());
                let made = upgrade_commands(one);
                out.insert(0, made);
                assert(out.deep_view() =~= seq![target[n - 1]] + before);
                assert(out.deep_view() =~= target.skip(n - 1));
                assert(left.deep_view() =~= target.take(n - 1));
            },
        }
    }
    assert(target.skip(0) =~= target);
    out
}

// ---------------------------------------------------------------------------------------------
// Decoded batches and groups
// ---------------------------------------------------------------------------------------------
/// A batch as it was read.
#[derive(Debug)]
pub struct WalBatch {
    pub version: u16,
    pub commands: Vec<WriteCommand>,
}

#[derive(Debug)]
pub struct LegacyWalBatch {
    pub version: u16,
    pub commands: Vec<LegacyWriteCommand>,
}

pub open spec fn both_failed(
    start: Seq<char>,
    current: Seq<char>,
    middle: Seq<char>,
    legacy: Seq<char>,
) -> Seq<char> {
    start + current + middle + legacy + ")"@
}

fn both_failed_error(start: &str, current: &str, middle: &str, legacy: &str) -> (r: DbError)
    ensures
        r.message@ == both_failed(start@, current@, middle@, legacy@),
{
    DbError::new(error::cat5(start, current, middle, legacy, ")"))
}

/// The commands of a batch of a known version.
pub open spec fn batch_of_version(version: u16, list: Seq<CommandModel>) -> Result<
    Seq<CommandModel>,
    Seq<char>,
> {
    if version == 1 || version == WAL_BATCH_VERSION {
        Ok(list)
    } else {
        Err("unsupported WAL batch version "@ + num::decimal(version as nat))
    }
}

/// What a binary batch says, from what was read of it in today's form and in the earlier one.
/// The earlier form counts only where today's cannot be read.
pub open spec fn batch_read(
    current: Result<WalBatch, String>,
    legacy: Result<LegacyWalBatch, String>,
) -> Result<Seq<CommandModel>, Seq<char>> {
    match current {
        Ok(b) => batch_of_version(b.version, b.commands.deep_view()),
        Err(e) => match legacy {
            Ok(b) => batch_of_version(b.version, b.commands.deep_view()),
            Err(f) => Err(
                both_failed(
                    "cannot decode current WAL batch ("@,
                    e@,
                    ") or legacy WAL batch ("@,
                    f@,
                ),
            ),
        },
    }
}

fn checked_batch(version: u16, list: Vec<WriteCommand>) -> (r: DbResult<Vec<WriteCommand>>)
    ensures
        error::outcome(r) == batch_of_version(version, list.deep_view()),
{
    if version == 1 || version == WAL_BATCH_VERSION {
        Ok(list)
    } else {
        let n = num::u64_text(version as u64);
        Err(DbError::new(error::cat2("unsupported WAL batch version ", n.as_str())))
    }
}

pub fn decode_wal_batch(
    current: Result<WalBatch, String>,
    legacy: Result<LegacyWalBatch, String>,
) -> (r: DbResult<Vec<WriteCommand>>)
    ensures
        error::outcome(r) == batch_read(current, legacy),
{
    match current {
        Ok(b) => checked_batch(b.version, b.commands),
        Err(e) => match legacy {
            Ok(b) => {
                let list = upgrade_commands(b.commands);
                checked_batch(b.version, list)
            },
            Err(f) => Err(
                both_failed_error(
                    "cannot decode current WAL batch (",
                    e.as_str(),
                    ") or legacy WAL batch (",
                    f.as_str(),
                ),
            ),
        },
    }
}

/// A batch in JSON, from what was read of it.
pub fn decode_json_batch(read: Result<WalBatch, String>) -> (r: DbResult<Vec<WriteCommand>>)
    ensures
        error::outcome(r) == (match read {
            Ok(b) => batch_of_version(b.version, b.commands.deep_view()),
            Err(e) => Err(e@),
        }),
{
    match read {
        Ok(b) => checked_batch(b.version, b.commands),
        Err(e) => Err(DbError::new(e)),
    }
}

/// A group as it was read; one without a time has none.
#[derive(Debug)]
pub struct WalGroup {
    pub version: u16,
    pub committed_unix_ms: Option<u64>,
    pub transactions: Vec<Vec<WriteCommand>>,
}

#[derive(Debug)]
pub struct LegacyWalGroup {
    pub version: u16,
    pub committed_unix_ms: Option<u64>,
    pub transactions: Vec<Vec<LegacyWriteCommand>>,
}

#[verifier::ext_equal]
pub struct GroupModel {
    pub committed_unix_ms: Option<u64>,
    pub transactions: Seq<Seq<CommandModel>>,
}

impl DeepView for WalGroup {
    type V = GroupModel;

    open spec fn deep_view(&self) -> GroupModel {
        GroupModel {
            committed_unix_ms: self.committed_unix_ms,
            transactions: self.transactions.deep_view(),
        }
    }
}

/// A group of the version that its frame names: a timed group carries its time.
pub open spec fn group_of_version(
    timed: bool,
    version: u16,
    at: Option<u64>,
    list: Seq<Seq<CommandModel>>,
) -> Result<GroupModel, Seq<char>> {
    if timed {
        if version == WAL_GROUP_VERSION {
            Ok(GroupModel { committed_unix_ms: at, transactions: list })
        } else {
            Err("unsupported WAL group version "@ + num::decimal(version as nat))
        }
    } else if version == 1 {
        Ok(GroupModel { committed_unix_ms: None, transactions: list })
    } else {
        Err("unsupported legacy WAL group version "@ + num::decimal(version as nat))
    }
}

/// What a group says, from what was read of it in today's form and in the earlier one.
pub open spec fn group_read(
    timed: bool,
    current: Result<WalGroup, String>,
    legacy: Result<LegacyWalGroup, String>,
) -> Result<GroupModel, Seq<char>> {
    match current {
        Ok(g) => group_of_version(
            timed,
            g.version,
            g.committed_unix_ms,
            g.transactions.deep_view(),
        ),
        Err(e) => match legacy {
            Ok(g) => group_of_version(
                timed,
                g.version,
                g.committed_unix_ms,
                g.transactions.deep_view(),
            ),
            Err(f) => Err(
                if timed {
                    both_failed(
                        "cannot decode current WAL group ("@,
                        e@,
                        ") or legacy WAL group ("@,
                        f@,
                    )
                } else {
                    both_failed(
                        "cannot decode current legacy WAL group ("@,
                        e@,
                        ") or pre-trigger WAL group ("@,
                        f@,
                    )
                },
            ),
        },
    }
}

fn checked_group(timed: bool, version: u16, at: Option<u64>, list: Vec<Vec<WriteCommand>>) -> (r:
    DbResult<WalGroup>)
    ensures
        error::outcome(r) == group_of_version(timed, version, at, list.deep_view()),
{
    let n = num::u64_text(version as u64);
    if timed {
        if version == WAL_GROUP_VERSION {
            Ok(WalGroup { version: version, committed_unix_ms: at, transactions: list })
        } else {
            Err(DbError::new(error::cat2("unsupported WAL group version ", n.as_str())))
        }
    } else if version == 1 {
        Ok(WalGroup { version: version, committed_unix_ms: None, transactions: list })
    } else {
        Err(DbError::new(error::cat2("unsupported legacy WAL group version ", n.as_str())))
    }
}

pub fn decode_wal_group(
    timed: bool,
    current: Result<WalGroup, String>,
    legacy: Result<LegacyWalGroup, String>,
) -> (r: DbResult<WalGroup>)
    ensures
        error::outcome(r) == group_read(timed, current, legacy),
{
    match current {
        Ok(g) => checked_group(timed, g.version, g.committed_unix_ms, g.transactions),
        Err(e) => match legacy {
            Ok(g) => {
                let list = upgrade_transactions(g.transactions);
                checked_group(timed, g.version, g.committed_unix_ms, list)
            },
            Err(f) => if timed {
                Err(
                    both_failed_error(
                        "cannot decode current WAL group (",
                        e.as_str(),
                        ") or legacy WAL group (",
                        f.as_str(),
                    ),
                )
            } else {
                Err(
                    both_failed_error(
                        "cannot decode current legacy WAL group (",
                        e.as_str(),
                        ") or pre-trigger WAL group (",
                        f.as_str(),
                    ),
                )
            },
        },
    }
}

// ---------------------------------------------------------------------------------------------
// Which entries are replayed
// ---------------------------------------------------------------------------------------------
#[derive(Debug, Clone, Copy, PartialEq, Eq, Structural)]
pub enum WalRecordType {
    /// The commands of one transaction.
    Batch,
    /// The commit of a transaction.
    Commit,
    /// A transaction whose rows stand on pages.
    Applied,
    /// The commands of a group of transactions, committed by standing there.
    GroupCommit,
    /// Anything else.
    Other,
}

/// The head of a logged entry.
#[derive(Debug, Clone, Copy, PartialEq, Eq, Structural)]
pub struct WalEntry {
    pub lsn: u64,
    pub record_type: WalRecordType,
    pub tx_id: u64,
}

/// The commit time that a logged group carries; other entries, and groups that cannot be read,
/// carry none.
pub fn wal_group_commit_unix_ms(record_type: WalRecordType, group: &DbResult<WalGroup>) -> (r:
    Option<u64>)
    ensures
        r == (match *group {
            Ok(g) => if record_type == WalRecordType::GroupCommit {
                g.committed_unix_ms
            } else {
                None
            },
            Err(_) => None,
        }),
{
    match group {
        Err(_) => None,
        Ok(g) => if record_type == WalRecordType::GroupCommit {
            g.committed_unix_ms
        } else {
            None
        },
    }
}

/// Whether an entry of a kind stands for a transaction.
pub open spec fn marked(list: Seq<WalEntry>, kind: WalRecordType, tx: u64) -> bool {
    exists|i: int|
        0 <= i < list.len() && (#[trigger] list[i]).record_type == kind && list[i].tx_id == tx
}

/// An entry is replayed if its transaction is committed and does not stand on pages yet. The
/// commands of a single transaction count once its commit is logged; a group counts by itself.
pub open spec fn replayed(list: Seq<WalEntry>, e: WalEntry) -> bool {
    !marked(list, WalRecordType::Applied, e.tx_id) && (e.record_type == WalRecordType::GroupCommit
        || (e.record_type == WalRecordType::Batch && marked(
        list,
        WalRecordType::Commit,
        e.tx_id,
    )))
}

fn is_marked(list: &Vec<WalEntry>, kind: WalRecordType, tx: u64) -> (r: bool)
    ensures
        r == marked(list@, kind, tx),
{
    let mut i: usize = 0;
    while i < list.len()
        invariant
            i <= list@.len(),
            forall|j: int|
                0 <= j < i ==> !((#[trigger] list@[j]).record_type == kind && list@[j].tx_id == tx),
        decreases list@.len() - i,
    {
        if list[i].record_type == kind && list[i].tx_id == tx {
            return true;
        }
        i += 1;
    }
    false
}

fn is_replayed(list: &Vec<WalEntry>, e: WalEntry) -> (r: bool)
    ensures
        r == replayed(list@, e),
{
    !is_marked(list, WalRecordType::Applied, e.tx_id) && (e.record_type
        == WalRecordType::GroupCommit || (e.record_type == WalRecordType::Batch && is_marked(
        list,
        WalRecordType::Commit,
        e.tx_id,
    )))
}

/// Whether places of a list follow its log sequence numbers, equal ones in the order of the list.
pub open spec fn in_log_order(list: Seq<WalEntry>, places: Seq<usize>) -> bool {
    forall|a: int, b: int|
        #![trigger places[a], places[b]]
        0 <= a < b < places.len() ==> places[a] < list.len() && places[b] < list.len() && (
        list[places[a] as int].lsn < list[places[b] as int].lsn || (list[places[a] as int].lsn
            == list[places[b] as int].lsn && places[a] < places[b]))
}

/// The places of the entries to replay, in log order.
pub fn entries_to_replay(list: &Vec<WalEntry>) -> (r: Vec<usize>)
    ensures
        in_log_order(list@, r@),
        forall|i: int| 0 <= i < r@.len() ==> (#[trigger] r@[i]) < list@.len(),
        forall|i: usize|
            i < list@.len() ==> (#[trigger] r@.contains(i) == replayed(list@, list@[i as int])),
{
    let mut out: Vec<usize> = Vec::new();
    let mut i: usize = 0;
    while i < list.len()
        invariant
            i <= list@.len(),
            in_log_order(list@, out@),
            forall|k: int| 0 <= k < out@.len() ==> (#[trigger] out@[k]) < i,
            forall|k: usize|
                k < i ==> (#[trigger] out@.contains(k) == replayed(list@, list@[k as int])),
        decreases list@.len() - i,
    {
        let ghost before = out@;
        if is_replayed(list, list[i]) {
            let mut p: usize = out.len();
            while p > 0 && list[out[p - 1]].lsn > list[i].lsn
                invariant
                    p <= out@.len(),
                    out@ == before,
                    i < list@.len(),
                    in_log_order(list@, before),
                    forall|k: int| 0 <= k < before.len() ==> (#[trigger] before[k]) < i,
                    forall|k: int|
                        p <= k < before.len() ==> list@[(#[trigger] before[k]) as int].lsn
                            > list@[i as int].lsn,
                decreases p,
            {
                p -= 1;
            }
            out.insert(p, i);
            proof {
                let after = out@;
                assert(after == before.insert(p as int, i));
                assert forall|a: int, b: int|
                    #![trigger after[a], after[b]]
                    0 <= a < b < after.len() implies after[a] < list@.len() && after[b]
                    < list@.len() && (list@[after[a] as int].lsn < list@[after[b] as int].lsn || (
                list@[after[a] as int].lsn == list@[after[b] as int].lsn && after[a]
                    < after[b])) by {
                    let a0 = if a < p {
                        a
                    } else {
                        a - 1
                    };
                    let b0 = if b < p {
                        b
                    } else {
                        b - 1
                    };
                    if a != p && b != p {
                        assert(after[a] == before[a0]);
                        assert(after[b] == before[b0]);
                    } else if b == p {
                        assert(after[a] == before[a]);
                        let last = before[p - 1];
                        if a < p - 1 {
                            assert(before[a] < list@.len());
                        }
                    } else {
                        assert(after[b] == before[b0]);
                    }
                }
                assert forall|k: usize| k < i + 1 implies (#[trigger] after.contains(k) == replayed(
                    list@,
                    list@[k as int],
                )) by {
                    assert(after[p as int] == i);
                    if before.contains(k) {
                        let at = choose|at: int| 0 <= at < before.len() && before[at] == k;
                        let at2 = if at < p {
                            at
                        } else {
                            at + 1
                        };
                        assert(after[at2] == k);
                    }
                    if after.contains(k) && k != i {
                        let at = choose|at: int| 0 <= at < after.len() && after[at] == k;
                        let at2 = if at < p {
                            at
                        } else {
                            at - 1
                        };
                        assert(before[at2] == k);
                    }
                }
            }
        } else {
            proof {
                assert forall|k: usize| k < i + 1 implies (#[trigger] before.contains(k)
                    == replayed(list@, list@[k as int])) by {
                    if k == i && before.contains(k) {
                        let at = choose|at: int| 0 <= at < before.len() && before[at] == k;
                        assert(before[at] < i);
                    }
                }
            }
        }
        i += 1;
    }
    out
}

/// A transaction that was never committed leaves nothing to replay.
pub proof fn uncommitted_batches_are_ignored(list: Seq<WalEntry>, e: WalEntry)
    requires
        e.record_type == WalRecordType::Batch,
        !marked(list, WalRecordType::Commit, e.tx_id),
    ensures
        !replayed(list, e),
{
}

/// What stands on pages is not replayed again.
pub proof fn applied_entries_are_not_replayed(list: Seq<WalEntry>, e: WalEntry)
    requires
        marked(list, WalRecordType::Applied, e.tx_id),
    ensures
        !replayed(list, e),
{
}

pub open spec fn undecodable(kind: WalRecordType, tx: u64, reason: Seq<char>) -> Seq<char> {
    (if kind == WalRecordType::GroupCommit {
        "cannot decode WAL group "@
    } else {
        "cannot decode WAL transaction "@
    }) + num::decimal(tx as nat) + ": "@ + reason
}

pub fn undecodable_error(e: WalEntry, reason: &str) -> (r: DbError)
    ensures
        r.message@ == undecodable(e.record_type, e.tx_id, reason@),
{
    let n = num::u64_text(e.tx_id);
    if e.record_type == WalRecordType::GroupCommit {
        DbError::new(error::cat4("cannot decode WAL group ", n.as_str(), ": ", reason))
    } else {
        DbError::new(error::cat4("cannot decode WAL transaction ", n.as_str(), ": ", reason))
    }
}

/// The commands of a group's transactions, in order.
pub open spec fn group_commands(list: Seq<Seq<CommandModel>>, at: int, done: Seq<CommandModel>) -> Seq<
    CommandModel,
>
    decreases list.len() - at,
{
    if at < 0 || at >= list.len() {
        done
    } else {
        group_commands(list, at + 1, done + list[at])
    }
}

pub fn flatten_group(list: &Vec<Vec<WriteCommand>>) -> (r: Vec<WriteCommand>)
    ensures
        r.deep_view() == group_commands(list.deep_view(), 0, Seq::empty()),
{
    let ghost all = list.deep_view();
    let mut out: Vec<WriteCommand> = Vec::new();
    let mut i: usize = 0;
    assert(out.deep_view() =~= Seq::empty());
    while i < list.len()
        invariant
            i <= list@.len(),
            all == list.deep_view(),
            group_commands(all, i as int, out.deep_view()) == group_commands(all, 0, Seq::empty()),
        decreases list@.len() - i,
    {
        assert(all[i as int] == list@[i as int].deep_view());
        let ghost before = out.deep_view();
        let mut more = commands::copy_commands(&list[i]);
        let ghost added = more.deep_view();
        out.append(&mut more);
        assert(out.deep_view() =~= before + added);
        i += 1;
    }
    out
}

/// The logged batches from the `at`-th on replayed, up to the first that fails; and how many of
/// all were.
pub open spec fn replayed_from(
    s: StoreModel,
    batches: Seq<Seq<CommandModel>>,
    cx: ContextModel,
    at: int,
) -> (StoreModel, int, Result<(), Seq<char>>)
    decreases batches.len() - at,
{
    if at < 0 || at >= batches.len() {
        (s, at, Ok(()))
    } else {
        let (after, r) = replay::batch_replayed(s, batches[at], cx);
        match r {
            Err(e) => (after, at, Err(e)),
            Ok(_) => replayed_from(after, batches, cx, at + 1),
        }
    }
}

/// Replays logged batches in their order. Returns how many stand on pages, so that they can be
/// marked as applied.
#[verifier::loop_isolation(false)]
pub fn wal_replay(s: &mut Store, batches: &Vec<Vec<WriteCommand>>, cx: &Context) -> (r: (
    usize,
    DbResult<()>,
))
    requires
        old(s).wf(),
    ensures
        final(s).wf(),
        ({
            let (after, n, outcome) = replayed_from(old(s)@, batches.deep_view(), cx@, 0);
            final(s)@ == after && r.0 == n && error::outcome(r.1) == outcome
        }),
{
    let ghost all = batches.deep_view();
    let ghost whole = replayed_from(s@, all, cx@, 0);
    let mut i: usize = 0;
    while i < batches.len()
        invariant
            i <= batches@.len(),
            s.wf(),
            all == batches.deep_view(),
            replayed_from(s@, all, cx@, i as int) == whole,
        decreases batches@.len() - i,
    {
        assert(all[i as int] == batches@[i as int].deep_view());
        match replay::replay_batch(s, &batches[i], cx) {
            Err(e) => {
                return (i, Err(e));
            },
            Ok(_) => {},
        }
        i += 1;
    }
    (i, Ok(()))
}

} // verus!
