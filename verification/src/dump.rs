//! Table dumps: consistent full and incremental backups of a database over its SQL interface.
use crate::assoc;
use crate::cells;
use crate::cells::{Cell, CellModel};
use crate::error;
use crate::error::{DbError, DbResult};
use crate::num;
use crate::search;
use crate::seqs;
use crate::sqltext;
use crate::text;
use crate::update;
use std::io::Write;
use vstd::prelude::*;
use vstd::utf8::{decode_utf8, encode_utf8_decode_utf8, encode_utf8_valid_utf8, valid_utf8};

verus! {

pub const FORMAT_VERSION: u32 = 1;

#[derive(Debug, Clone, Copy, PartialEq, Eq, Structural)]
pub enum BackupKind {
    Full,
    Incremental,
}

#[derive(Debug, Clone, Copy, PartialEq, Eq, Structural)]
pub enum TableAction {
    Replace,
    Unchanged,
}

/// What a table held when it was dumped.
#[derive(Debug)]
pub struct TableState {
    pub name: String,
    pub rows: u64,
    pub content_checksum: String,
}

pub struct TableStateModel {
    pub name: Seq<char>,
    pub rows: u64,
    pub content_checksum: Seq<char>,
}

impl View for TableState {
    type V = TableStateModel;

    open spec fn view(&self) -> TableStateModel {
        TableStateModel {
            name: self.name@,
            rows: self.rows,
            content_checksum: self.content_checksum@,
        }
    }
}

impl DeepView for TableState {
    type V = TableStateModel;

    open spec fn deep_view(&self) -> TableStateModel {
        self@
    }
}

/// A table in a manifest: its definition, its content by checksum, and its data file.
#[derive(Debug)]
pub struct TableEntry {
    pub name: String,
    pub ddl: String,
    pub ddl_checksum: String,
    pub rows: u64,
    pub content_checksum: String,
    pub action: TableAction,
    pub data_file: Option<String>,
    pub data_file_checksum: Option<String>,
    pub uncompressed_bytes: u64,
    pub compressed_bytes: u64,
}

pub struct TableEntryModel {
    pub name: Seq<char>,
    pub ddl: Seq<char>,
    pub ddl_checksum: Seq<char>,
    pub rows: u64,
    pub content_checksum: Seq<char>,
    pub action: TableAction,
    pub data_file: Option<Seq<char>>,
    pub data_file_checksum: Option<Seq<char>>,
    pub uncompressed_bytes: u64,
    pub compressed_bytes: u64,
}

pub open spec fn opt_text(s: Option<String>) -> Option<Seq<char>> {
    match s {
        Some(t) => Some(t@),
        None => None,
    }
}

fn copy_opt(s: &Option<String>) -> (r: Option<String>)
    ensures
        opt_text(r) == opt_text(*s),
{
    match s {
        Some(t) => Some(text::copy_text(t.as_str())),
        None => None,
    }
}

impl View for TableEntry {
    type V = TableEntryModel;

    open spec fn view(&self) -> TableEntryModel {
        TableEntryModel {
            name: self.name@,
            ddl: self.ddl@,
            ddl_checksum: self.ddl_checksum@,
            rows: self.rows,
            content_checksum: self.content_checksum@,
            action: self.action,
            data_file: opt_text(self.data_file),
            data_file_checksum: opt_text(self.data_file_checksum),
            uncompressed_bytes: self.uncompressed_bytes,
            compressed_bytes: self.compressed_bytes,
        }
    }
}

impl DeepView for TableEntry {
    type V = TableEntryModel;

    open spec fn deep_view(&self) -> TableEntryModel {
        self@
    }
}

impl Clone for TableEntry {
    fn clone(&self) -> (r: Self)
        ensures
            r@ == self@,
    {
        TableEntry {
            name: text::copy_text(self.name.as_str()),
            ddl: text::copy_text(self.ddl.as_str()),
            ddl_checksum: text::copy_text(self.ddl_checksum.as_str()),
            rows: self.rows,
            content_checksum: text::copy_text(self.content_checksum.as_str()),
            action: self.action,
            data_file: copy_opt(&self.data_file),
            data_file_checksum: copy_opt(&self.data_file_checksum),
            uncompressed_bytes: self.uncompressed_bytes,
            compressed_bytes: self.compressed_bytes,
        }
    }
}

/// What a backup says of itself.
#[derive(Debug)]
pub struct Manifest {
    pub format_version: u32,
    pub tool: String,
    pub kind: BackupKind,
    pub database: String,
    pub created_at: String,
    pub duration_ms: u128,
    pub consistent_snapshot: bool,
    pub table_locks: bool,
    pub incremental_strategy: String,
    pub parent_manifest: Option<String>,
    pub parent_state: Vec<TableState>,
    pub tables: Vec<TableEntry>,
    pub dropped_tables: Vec<String>,
}

pub struct ManifestModel {
    pub format_version: u32,
    pub tool: Seq<char>,
    pub kind: BackupKind,
    pub database: Seq<char>,
    pub created_at: Seq<char>,
    pub duration_ms: u128,
    pub consistent_snapshot: bool,
    pub table_locks: bool,
    pub incremental_strategy: Seq<char>,
    pub parent_manifest: Option<Seq<char>>,
    pub parent_state: Seq<TableStateModel>,
    pub tables: Seq<TableEntryModel>,
    pub dropped_tables: Seq<Seq<char>>,
}

impl View for Manifest {
    type V = ManifestModel;

    open spec fn view(&self) -> ManifestModel {
        ManifestModel {
            format_version: self.format_version,
            tool: self.tool@,
            kind: self.kind,
            database: self.database@,
            created_at: self.created_at@,
            duration_ms: self.duration_ms,
            consistent_snapshot: self.consistent_snapshot,
            table_locks: self.table_locks,
            incremental_strategy: self.incremental_strategy@,
            parent_manifest: opt_text(self.parent_manifest),
            parent_state: self.parent_state.deep_view(),
            tables: self.tables.deep_view(),
            dropped_tables: self.dropped_tables.deep_view(),
        }
    }
}

/// A table of the database that is dumped.
#[derive(Debug)]
pub struct SourceTable {
    pub name: String,
    pub engine: String,
}

pub struct SourceTableModel {
    pub name: Seq<char>,
    pub engine: Seq<char>,
}

impl View for SourceTable {
    type V = SourceTableModel;

    open spec fn view(&self) -> SourceTableModel {
        SourceTableModel { name: self.name@, engine: self.engine@ }
    }
}

impl DeepView for SourceTable {
    type V = SourceTableModel;

    open spec fn deep_view(&self) -> SourceTableModel {
        self@
    }
}

impl Clone for SourceTable {
    fn clone(&self) -> (r: Self)
        ensures
            r@ == self@,
    {
        SourceTable {
            name: text::copy_text(self.name.as_str()),
            engine: text::copy_text(self.engine.as_str()),
        }
    }
}

// ---------------------------------------------------------------------------------------------
// Statements
// ---------------------------------------------------------------------------------------------
/// A statement that ends in a quoted name.
pub fn on_name(statement: &str, name: &str) -> (r: String)
    ensures
        r@ == statement@ + sqltext::quoted(name@),
{
    let q = sqltext::quote_name(name);
    error::cat2(statement, q.as_str())
}

/// The literal of bytes in a dump.
pub open spec fn quoted_bytes(b: Seq<u8>) -> Seq<char> {
    cells::hex_quoted(b, false)
}

pub fn quote_bytes(value: &[u8]) -> (r: String)
    ensures
        r@ == quoted_bytes(value@),
{
    cells::quote_hex(value, false)
}

pub fn value_sql(value: &Cell) -> (r: DbResult<String>)
    ensures
        error::outcome(r) == cells::sql_of(value@, false, "dump"@),
{
    cells::cell_sql(value, false, "dump")
}

pub fn format_tuple(values: &Vec<Cell>) -> (r: DbResult<String>)
    ensures
        error::outcome(r) == cells::tuple_of(values.deep_view(), false, "dump"@),
{
    cells::row_tuple(values, false, "dump")
}

pub fn hash_row(values: &Vec<Cell>) -> (r: DbResult<Vec<u8>>)
    ensures
        error::outcome(r) == cells::row_digest(values.deep_view(), "dump"@),
{
    cells::digest_row(values, "dump")
}

/// The query for the tables of a database with their engines.
pub fn tables_query(database: &str) -> (r: String)
    ensures
        r@ == "SELECT TABLE_NAME, COALESCE(ENGINE,'UNKNOWN') FROM INFORMATION_SCHEMA.TABLES WHERE TABLE_SCHEMA="@
            + quoted_bytes(text::bytes_of(database@))
            + " AND TABLE_TYPE='BASE TABLE' ORDER BY TABLE_NAME"@,
{
    let literal = quote_bytes(text::text_bytes(database).as_slice());
    error::cat3(
        "SELECT TABLE_NAME, COALESCE(ENGINE,'UNKNOWN') FROM INFORMATION_SCHEMA.TABLES WHERE TABLE_SCHEMA=",
        literal.as_str(),
        " AND TABLE_TYPE='BASE TABLE' ORDER BY TABLE_NAME",
    )
}

/// The file that holds the rows of a table.
pub open spec fn data_file(table: Seq<char>) -> Seq<char> {
    "table-"@ + num::hex(text::bytes_of(table), false) + ".sql.zst"@
}

pub fn data_file_name(table: &str) -> (r: String)
    ensures
        r@ == data_file(table@),
{
    let digits = num::hex_text(text::text_bytes(table).as_slice(), false);
    error::cat3("table-", digits.as_str(), ".sql.zst")
}

// ---------------------------------------------------------------------------------------------
// Which tables
// ---------------------------------------------------------------------------------------------
pub fn check_batch_size(batch_size: usize) -> (r: DbResult<()>)
    ensures
        error::outcome(r) == if batch_size == 0 {
            Err::<(), Seq<char>>("--batch-size must be greater than zero"@)
        } else {
            Ok(())
        },
{
    if batch_size == 0 {
        Err(DbError::of("--batch-size must be greater than zero"))
    } else {
        Ok(())
    }
}

pub fn check_base(base: &Manifest, database: &str) -> (r: DbResult<()>)
    ensures
        error::outcome(r) == if base@.database != database@ {
            Err::<(), Seq<char>>("incremental base belongs to database `"@ + base@.database + "`"@)
        } else {
            Ok(())
        },
{
    if text::text_equal(base.database.as_str(), database) {
        Ok(())
    } else {
        Err(
            DbError::new(
                error::cat3("incremental base belongs to database `", base.database.as_str(), "`"),
            ),
        )
    }
}

pub fn is_mydb(version: &str) -> (r: bool)
    ensures
        r == search::contains_text(version@, "mydb"@),
{
    search::text_contains(version, "mydb")
}

/// The last of the first `n` tables that has a name.
pub open spec fn table_named(tables: Seq<SourceTableModel>, name: Seq<char>, n: int) -> Option<SourceTableModel>
    decreases n,
{
    if n <= 0 || n > tables.len() {
        None
    } else if tables[n - 1].name == name {
        Some(tables[n - 1])
    } else {
        table_named(tables, name, n - 1)
    }
}

/// The tables that the first `n` requested names stand for.
pub open spec fn chosen(available: Seq<SourceTableModel>, requested: Seq<Seq<char>>, n: int) -> Result<
    Seq<SourceTableModel>,
    Seq<char>,
>
    decreases n,
{
    if n <= 0 || n > requested.len() {
        Ok(Seq::empty())
    } else {
        match chosen(available, requested, n - 1) {
            Err(e) => Err(e),
            Ok(before) => match table_named(available, requested[n - 1], available.len() as int) {
                None => Err("source table `"@ + requested[n - 1] + "` does not exist"@),
                Some(t) => Ok(before.push(t)),
            },
        }
    }
}

proof fn chosen_stops(available: Seq<SourceTableModel>, requested: Seq<Seq<char>>, m: int, n: int)
    requires
        0 <= m <= n <= requested.len(),
        chosen(available, requested, m) is Err,
    ensures
        chosen(available, requested, n) == chosen(available, requested, m),
    decreases n - m,
{
    if m < n {
        chosen_stops(available, requested, m, n - 1);
    }
}

fn find_table(available: &Vec<SourceTable>, name: &str) -> (r: Option<usize>)
    ensures
        r is Some == table_named(available.deep_view(), name@, available@.len() as int) is Some,
        r matches Some(i) ==> i < available@.len() && table_named(
            available.deep_view(),
            name@,
            available@.len() as int,
        ) == Some(available@[i as int]@),
{
    let ghost all = available.deep_view();
    let mut i: usize = available.len();
    while i > 0
        invariant
            i <= available@.len(),
            all == available.deep_view(),
            table_named(all, name@, i as int) == table_named(all, name@, all.len() as int),
        decreases i,
    {
        i -= 1;
        assert(all[i as int] == available@[i as int]@);
        if text::text_equal(available[i].name.as_str(), name) {
            return Some(i);
        }
    }
    None
}

/// The tables to dump: those that were asked for, or all.
pub fn choose_tables(available: Vec<SourceTable>, requested: &Vec<String>) -> (r: DbResult<Vec<SourceTable>>)
    ensures
        error::outcome(r) == if requested@.len() == 0 {
            Ok(available.deep_view())
        } else {
            chosen(available.deep_view(), requested.deep_view(), requested@.len() as int)
        },
{
    if requested.len() == 0 {
        return Ok(available);
    }
    let ghost all = available.deep_view();
    let ghost names = requested.deep_view();
    let mut out: Vec<SourceTable> = Vec::new();
    let mut i: usize = 0;
    assert(out.deep_view() =~= Seq::empty());
    while i < requested.len()
        invariant
            i <= requested@.len(),
            all == available.deep_view(),
            names == requested.deep_view(),
            chosen(all, names, i as int) == Ok::<Seq<SourceTableModel>, Seq<char>>(out.deep_view()),
        decreases requested@.len() - i,
    {
        let ghost before = out.deep_view();
        assert(names[i as int] == requested@[i as int]@);
        match find_table(&available, requested[i].as_str()) {
            None => {
                proof {
                    chosen_stops(all, names, i + 1, names.len() as int);
                }
                return Err(
                    DbError::new(
                        error::cat3("source table `", requested[i].as_str(), "` does not exist"),
                    ),
                );
            },
            Some(k) => {
                let copy = available[k].clone();
                out.push(copy);
                assert(out.deep_view() =~= before.push(available@[k as int]@));
            },
        }
        i += 1;
    }
    assert(requested@.len() != 0);
    Ok(out)
}

pub open spec fn transactional(t: SourceTableModel) -> bool {
    text::same_fold(t.engine, "InnoDB"@)
}

pub open spec fn unsafe_tables(tables: Seq<SourceTableModel>) -> Seq<SourceTableModel> {
    tables.filter(|t: SourceTableModel| !transactional(t))
}

pub open spec fn with_engine(t: SourceTableModel) -> Seq<char> {
    t.name + " ("@ + t.engine + ")"@
}

/// Refuses tables whose rows a snapshot does not hold still.
pub open spec fn checked_engines(tables: Seq<SourceTableModel>, allowed: bool) -> Result<(), Seq<char>> {
    let bad = unsafe_tables(tables).map_values(|t: SourceTableModel| with_engine(t));
    if allowed || bad.len() == 0 {
        Ok(())
    } else {
        Err(
            "lock-free consistency requires transactional tables; unsupported: "@ + search::joined(bad, ", "@)
                + ". Use --allow-non-transactional only if inconsistency is acceptable"@,
        )
    }
}

pub fn check_engines(tables: &Vec<SourceTable>, allowed: bool) -> (r: DbResult<()>)
    ensures
        error::outcome(r) == checked_engines(tables.deep_view(), allowed),
{
    let ghost all = tables.deep_view();
    let ghost p = |t: SourceTableModel| !transactional(t);
    let ghost f = |t: SourceTableModel| with_engine(t);
    let mut bad: Vec<String> = Vec::new();
    let mut i: usize = 0;
    proof {
        assert(all.take(0) =~= Seq::empty());
        assert(all.take(0).filter(p) =~= Seq::empty()) by {
            reveal(Seq::filter);
        }
        assert(bad.deep_view() =~= all.take(0).filter(p).map_values(f));
    }
    while i < tables.len()
        invariant
            i <= tables@.len(),
            all == tables.deep_view(),
            p == (|t: SourceTableModel| !transactional(t)),
            f == (|t: SourceTableModel| with_engine(t)),
            bad.deep_view() == all.take(i as int).filter(p).map_values(f),
        decreases tables@.len() - i,
    {
        let ghost before = bad.deep_view();
        assert(all[i as int] == tables@[i as int]@);
        proof {
            seqs::filter_step(all, i as int, p);
        }
        if !text::eq_fold(tables[i].engine.as_str(), "InnoDB") {
            bad.push(error::cat4(tables[i].name.as_str(), " (", tables[i].engine.as_str(), ")"));
            assert(bad.deep_view() =~= before.push(with_engine(all[i as int])));
            assert(all.take(i + 1).filter(p).map_values(f) =~= before.push(f(all[i as int])));
        }
        i += 1;
    }
    assert(all.take(i as int) =~= all);
    if allowed || bad.len() == 0 {
        return Ok(());
    }
    let parts = bad.as_slice();
    assert(parts.deep_view() =~= bad.deep_view());
    let list = search::join(parts, ", ");
    Err(
        DbError::new(
            error::cat3(
                "lock-free consistency requires transactional tables; unsupported: ",
                list.as_str(),
                ". Use --allow-non-transactional only if inconsistency is acceptable",
            ),
        ),
    )
}

// ---------------------------------------------------------------------------------------------
// Rows
// ---------------------------------------------------------------------------------------------
pub open spec fn insert_text(table: Seq<char>, columns: Seq<char>, tuples: Seq<Seq<char>>) -> Seq<char> {
    "INSERT INTO "@ + sqltext::quoted(table) + " ("@ + columns + ") VALUES "@ + search::joined(tuples, ","@)
        + ";"@
}

/// A table that is being dumped: the statements so far and the rows that await the next one.
#[derive(Debug)]
pub struct TableDump {
    pub table: String,
    pub columns: String,
    pub batch_size: usize,
    pub tuples: Vec<String>,
    pub digests: Vec<Vec<u8>>,
    pub sql: String,
}

pub struct TableDumpModel {
    pub table: Seq<char>,
    pub columns: Seq<char>,
    pub batch: nat,
    pub tuples: Seq<Seq<char>>,
    pub digests: Seq<Seq<u8>>,
    pub sql: Seq<char>,
}

impl View for TableDump {
    type V = TableDumpModel;

    open spec fn view(&self) -> TableDumpModel {
        TableDumpModel {
            table: self.table@,
            columns: self.columns@,
            batch: self.batch_size as nat,
            tuples: self.tuples.deep_view(),
            digests: self.digests.deep_view(),
            sql: self.sql@,
        }
    }
}

/// The dump with the rows that wait written out, one statement to a line.
pub open spec fn flushed(d: TableDumpModel) -> TableDumpModel {
    if d.tuples.len() == 0 {
        d
    } else {
        TableDumpModel {
            tuples: Seq::empty(),
            sql: d.sql + insert_text(d.table, d.columns, d.tuples) + "\n"@,
            ..d
        }
    }
}

/// The dump with one more row; a full batch is written out.
pub open spec fn row_added(d: TableDumpModel, row: Seq<CellModel>) -> Result<TableDumpModel, Seq<char>> {
    match (cells::row_digest(row, "dump"@), cells::tuple_of(row, false, "dump"@)) {
        (Err(e), _) => Err(e),
        (_, Err(e)) => Err(e),
        (Ok(digest), Ok(tuple)) => {
            let more = TableDumpModel {
                tuples: d.tuples.push(tuple),
                digests: d.digests.push(digest),
                ..d
            };
            Ok(
                if more.tuples.len() == more.batch {
                    flushed(more)
                } else {
                    more
                },
            )
        },
    }
}

impl TableDump {
    pub fn new(table: &str, columns: &Vec<String>, batch_size: usize) -> (r: Self)
        ensures
            r@ == (TableDumpModel {
                table: table@,
                columns: search::joined(sqltext::quoted_all(columns.deep_view()), ","@),
                batch: batch_size as nat,
                tuples: Seq::empty(),
                digests: Seq::empty(),
                sql: Seq::empty(),
            }),
    {
        let r = TableDump {
            table: text::copy_text(table),
            columns: sqltext::quote_names(columns),
            batch_size: batch_size,
            tuples: Vec::new(),
            digests: Vec::new(),
            sql: String::new(),
        };
        assert(r.tuples.deep_view() =~= Seq::empty());
        assert(r.digests.deep_view() =~= Seq::empty());
        assert(r.sql@ =~= Seq::empty());
        r
    }

    /// Writes out the rows that wait.
    pub fn flush(&mut self)
        ensures
            final(self)@ == flushed(old(self)@),
    {
        if self.tuples.len() == 0 {
            return;
        }
        let parts = self.tuples.as_slice();
        assert(parts.deep_view() =~= self.tuples.deep_view());
        let list = search::join(parts, ",");
        let name = sqltext::quote_name(self.table.as_str());
        let statement = error::cat7(
            "INSERT INTO ",
            name.as_str(),
            " (",
            self.columns.as_str(),
            ") VALUES ",
            list.as_str(),
            ";",
        );
        self.sql.append(statement.as_str());
        self.sql.append("\n");
        self.tuples = Vec::new();
        assert(self.tuples.deep_view() =~= Seq::empty());
    }

    /// Adds a row; a row that cannot be dumped leaves the dump as it was.
    pub fn add_row(&mut self, values: &Vec<Cell>) -> (r: DbResult<()>)
        ensures
            match row_added(old(self)@, values.deep_view()) {
                Ok(d) => r is Ok && final(self)@ == d,
                Err(e) => r matches Err(error) && error.message@ == e && final(self)@ == old(self)@,
            },
    {
        let digest = match hash_row(values) {
            Err(e) => {
                return Err(e);
            },
            Ok(d) => d,
        };
        let tuple = match format_tuple(values) {
            Err(e) => {
                return Err(e);
            },
            Ok(t) => t,
        };
        let ghost tuples = self.tuples.deep_view();
        let ghost digests = self.digests.deep_view();
        let ghost t = tuple@;
        let ghost d = digest.deep_view();
        self.digests.push(digest);
        self.tuples.push(tuple);
        assert(self.tuples.deep_view() =~= tuples.push(t));
        assert(self.digests.deep_view() =~= digests.push(d));
        if self.tuples.len() == self.batch_size {
            self.flush();
        }
        Ok(())
    }

    /// How many rows were dumped, and their checksum.
    pub fn content(&self) -> (r: (u64, String))
        ensures
            r.0 == self@.digests.len(),
            r.1@ == cells::table_digest(self@.digests),
    {
        (self.digests.len() as u64, cells::digest_table(&self.digests))
    }
}

// ---------------------------------------------------------------------------------------------
// Data files
// ---------------------------------------------------------------------------------------------
/// What a Zstandard stream holds, or the text of the error where it is no whole one.
pub uninterp spec fn zstd_content(stream: Seq<u8>) -> Result<Seq<u8>, Seq<char>>;

/// The Zstandard stream with a checksum that data comes to at a level, or the text of the error
/// where it comes to none.
pub uninterp spec fn zstd_stream(data: Seq<u8>, level: i32) -> Result<Seq<u8>, Seq<char>>;

/// An outcome by bytes and message.
pub open spec fn bytes_outcome(r: DbResult<Vec<u8>>) -> Result<Seq<u8>, Seq<char>> {
    match r {
        Ok(bytes) => Ok(bytes@),
        Err(e) => Err(e.message@),
    }
}

/// `zstd::stream::write::Encoder` with `include_checksum`: a stream that depends on the data and
/// the level alone, and holds the data.
#[verifier::external_body]
fn compress(data: &[u8], level: i32) -> (r: DbResult<Vec<u8>>)
    ensures
        bytes_outcome(r) == zstd_stream(data@, level),
        r matches Ok(stream) ==> (zstd_content(stream@) == Ok::<Seq<u8>, Seq<char>>(data@)),
{
    let fault = |e: std::io::Error| DbError::new(e.to_string());
    let mut encoder = zstd::stream::write::Encoder::new(Vec::new(), level).map_err(fault)?;
    encoder.include_checksum(true).map_err(fault)?;
    encoder.write_all(data).map_err(fault)?;
    encoder.finish().map_err(fault)
}

/// `zstd::stream::decode_all`: what a stream holds, which depends on its bytes alone.
#[verifier::external_body]
fn decompress(stream: &[u8]) -> (r: DbResult<Vec<u8>>)
    ensures
        bytes_outcome(r) == zstd_content(stream@),
{
    match zstd::stream::decode_all(stream) {
        Ok(data) => Ok(data),
        Err(e) => Err(DbError::new(e.to_string())),
    }
}

/// The data file that holds statements: it gives them back when it is read.
pub fn pack(sql: &str, level: i32) -> (r: DbResult<Vec<u8>>)
    ensures
        bytes_outcome(r) == zstd_stream(text::bytes_of(sql@), level),
        r matches Ok(stream) ==> zstd_content(stream@) == Ok::<Seq<u8>, Seq<char>>(
            text::bytes_of(sql@),
        ),
{
    compress(text::text_bytes(sql).as_slice(), level)
}

pub open spec fn not_blank() -> spec_fn(Seq<char>) -> bool {
    |line: Seq<char>| text::trim(line).len() > 0
}

/// The statements of a text: its lines that are not blank.
pub open spec fn statements_of(sql: Seq<char>) -> Seq<Seq<char>> {
    search::lines(sql).filter(not_blank())
}

/// The statements that a data file holds, given what the stream holds.
pub open spec fn unpacked(content: Result<Seq<u8>, Seq<char>>) -> Result<
    Seq<Seq<char>>,
    Seq<char>,
> {
    match content {
        Err(e) => Err(e),
        Ok(data) => if valid_utf8(data) {
            Ok(statements_of(decode_utf8(data)))
        } else {
            Err("stream did not contain valid UTF-8"@)
        },
    }
}

/// Splits SQL text into its statements.
pub fn split_statements(sql: &str) -> (r: Vec<String>)
    ensures
        r.deep_view() == statements_of(sql@),
{
    let lines = search::split_lines(sql);
    let ghost all = lines.deep_view();
    let mut out: Vec<String> = Vec::new();
    let mut i: usize = 0;
    proof {
        assert(all.take(0) =~= Seq::empty());
        assert(all.take(0).filter(not_blank()) =~= out.deep_view()) by {
            reveal(Seq::filter);
        }
    }
    while i < lines.len()
        invariant
            i <= lines@.len(),
            all == lines.deep_view(),
            out.deep_view() == all.take(i as int).filter(not_blank()),
        decreases lines@.len() - i,
    {
        let ghost before = out.deep_view();
        assert(all[i as int] == lines@[i as int]@);
        proof {
            seqs::filter_step(all, i as int, not_blank());
        }
        let bare = text::trim_text(lines[i].as_str());
        let length: usize = text::chars_of(bare.as_str()).len();
        if length > 0 {
            out.push(text::copy_text(lines[i].as_str()));
            assert(out.deep_view() =~= before.push(all[i as int]));
        }
        i += 1;
    }
    assert(all.take(i as int) =~= all);
    out
}

/// The statements of a data file.
pub fn unpack(stream: &[u8]) -> (r: DbResult<Vec<String>>)
    ensures
        error::outcome(r) == unpacked(zstd_content(stream@)),
{
    match decompress(stream) {
        Err(e) => Err(e),
        Ok(data) => match text::utf8_text(data.as_slice()) {
            Err(_) => Err(DbError::of("stream did not contain valid UTF-8")),
            Ok(sql) => Ok(split_statements(sql)),
        },
    }
}

// ---------------------------------------------------------------------------------------------
// Entries
// ---------------------------------------------------------------------------------------------
/// Whether a table is what it was in the backup before.
pub open spec fn unchanged(
    prior: Option<TableEntryModel>,
    ddl_checksum: Seq<char>,
    content_checksum: Seq<char>,
    rows: u64,
) -> bool {
    prior matches Some(p) && p.ddl_checksum == ddl_checksum && p.content_checksum == content_checksum
        && p.rows == rows
}

/// The entry of a table that was dumped; an unchanged one has no data file.
pub open spec fn settled(
    name: Seq<char>,
    ddl: Seq<char>,
    rows: u64,
    content_checksum: Seq<char>,
    sql_bytes: u64,
    stream: Seq<u8>,
    prior: Option<TableEntryModel>,
) -> TableEntryModel {
    let ddl_checksum = update::checksum_of(text::bytes_of(ddl));
    let same = unchanged(prior, ddl_checksum, content_checksum, rows);
    TableEntryModel {
        name: name,
        ddl: ddl,
        ddl_checksum: ddl_checksum,
        rows: rows,
        content_checksum: content_checksum,
        action: if same {
            TableAction::Unchanged
        } else {
            TableAction::Replace
        },
        data_file: if same {
            None
        } else {
            Some(data_file(name))
        },
        data_file_checksum: if same {
            None
        } else {
            Some(update::checksum_of(stream))
        },
        uncompressed_bytes: if same {
            0
        } else {
            sql_bytes
        },
        compressed_bytes: if same {
            0
        } else {
            stream.len() as u64
        },
    }
}

pub open spec fn prior_model(prior: Option<&TableEntry>) -> Option<TableEntryModel> {
    match prior {
        Some(p) => Some(p@),
        None => None,
    }
}

/// Makes a table's entry from its dump and the data file that holds it.
pub fn settle_table(dump: &TableDump, ddl: String, stream: &Vec<u8>, prior: Option<&TableEntry>) -> (r: TableEntry)
    ensures
        r@ == settled(
            dump@.table,
            ddl@,
            dump@.digests.len() as u64,
            cells::table_digest(dump@.digests),
            text::bytes_of(dump@.sql).len() as u64,
            stream@,
            prior_model(prior),
        ),
{
    let ddl_checksum = update::sha256_hex(text::text_bytes(ddl.as_str()).as_slice());
    let (rows, content_checksum) = dump.content();
    let same = match prior {
        None => false,
        Some(p) => text::text_equal(p.ddl_checksum.as_str(), ddl_checksum.as_str()) && text::text_equal(
            p.content_checksum.as_str(),
            content_checksum.as_str(),
        ) && p.rows == rows,
    };
    let sql_bytes: u64 = text::text_bytes(dump.sql.as_str()).len() as u64;
    let name = text::copy_text(dump.table.as_str());
    if same {
        TableEntry {
            name: name,
            ddl: ddl,
            ddl_checksum: ddl_checksum,
            rows: rows,
            content_checksum: content_checksum,
            action: TableAction::Unchanged,
            data_file: None,
            data_file_checksum: None,
            uncompressed_bytes: 0,
            compressed_bytes: 0,
        }
    } else {
        TableEntry {
            data_file: Some(data_file_name(name.as_str())),
            name: name,
            ddl: ddl,
            ddl_checksum: ddl_checksum,
            rows: rows,
            content_checksum: content_checksum,
            action: TableAction::Replace,
            data_file_checksum: Some(update::sha256_hex(stream.as_slice())),
            uncompressed_bytes: sql_bytes,
            compressed_bytes: stream.len() as u64,
        }
    }
}

/// The entry of a name in the backup before: the last one that has it.
pub open spec fn prior_entry(tables: Seq<TableEntryModel>, name: Seq<char>, n: int) -> Option<TableEntryModel>
    decreases n,
{
    if n <= 0 || n > tables.len() {
        None
    } else if tables[n - 1].name == name {
        Some(tables[n - 1])
    } else {
        prior_entry(tables, name, n - 1)
    }
}

pub fn find_prior<'a>(tables: &'a Vec<TableEntry>, name: &str) -> (r: Option<&'a TableEntry>)
    ensures
        prior_model(r) == prior_entry(tables.deep_view(), name@, tables@.len() as int),
{
    let ghost all = tables.deep_view();
    let mut i: usize = tables.len();
    while i > 0
        invariant
            i <= tables@.len(),
            all == tables.deep_view(),
            prior_entry(all, name@, i as int) == prior_entry(all, name@, all.len() as int),
        decreases i,
    {
        i -= 1;
        assert(all[i as int] == tables@[i as int]@);
        if text::text_equal(tables[i].name.as_str(), name) {
            return Some(&tables[i]);
        }
    }
    None
}

// ---------------------------------------------------------------------------------------------
// Manifests
// ---------------------------------------------------------------------------------------------
pub open spec fn entry_place(list: Seq<TableEntryModel>, x: TableEntryModel, at: int) -> int
    decreases list.len() - at,
{
    if at < 0 || at >= list.len() || assoc::text_less(x.name, list[at].name) {
        at
    } else {
        entry_place(list, x, at + 1)
    }
}

/// The first `n` entries in the order of their names; entries of one name keep their order.
pub open spec fn entries_in_order(list: Seq<TableEntryModel>, n: int) -> Seq<TableEntryModel>
    decreases n,
{
    if n <= 0 || n > list.len() {
        Seq::empty()
    } else {
        let before = entries_in_order(list, n - 1);
        before.insert(entry_place(before, list[n - 1], 0), list[n - 1])
    }
}

proof fn entry_place_bounds(list: Seq<TableEntryModel>, x: TableEntryModel, at: int)
    requires
        0 <= at <= list.len(),
    ensures
        at <= entry_place(list, x, at) <= list.len(),
        forall|i: int| at <= i < entry_place(list, x, at) ==> !assoc::text_less(x.name, (#[trigger] list[i]).name),
        entry_place(list, x, at) < list.len() ==> assoc::text_less(
            x.name,
            list[entry_place(list, x, at)].name,
        ),
    decreases list.len() - at,
{
    if at < list.len() && !assoc::text_less(x.name, list[at].name) {
        entry_place_bounds(list, x, at + 1);
    }
}

fn sort_entries(list: &Vec<TableEntry>) -> (r: Vec<TableEntry>)
    ensures
        r.deep_view() == entries_in_order(list.deep_view(), list@.len() as int),
{
    let ghost all = list.deep_view();
    let mut out: Vec<TableEntry> = Vec::new();
    let mut i: usize = 0;
    assert(out.deep_view() =~= Seq::empty());
    while i < list.len()
        invariant
            i <= list@.len(),
            all == list.deep_view(),
            out.deep_view() == entries_in_order(all, i as int),
        decreases list@.len() - i,
    {
        assert(all[i as int] == list@[i as int]@);
        let ghost before = out.deep_view();
        let ghost x = all[i as int];
        let mut p: usize = 0;
        while p < out.len() && !assoc::is_text_less(list[i].name.as_str(), out[p].name.as_str())
            invariant
                p <= out@.len(),
                i < list@.len(),
                before == out.deep_view(),
                x == list@[i as int]@,
                entry_place(before, x, p as int) == entry_place(before, x, 0),
            decreases out@.len() - p,
        {
            assert(before[p as int] == out@[p as int]@);
            p += 1;
        }
        proof {
            entry_place_bounds(before, x, 0);
            if p < out@.len() {
                assert(before[p as int] == out@[p as int]@);
            }
        }
        let copy = list[i].clone();
        out.insert(p, copy);
        assert(out.deep_view() =~= before.insert(p as int, x));
        i += 1;
    }
    out
}

pub open spec fn entry_names(tables: Seq<TableEntryModel>) -> Seq<Seq<char>> {
    tables.map_values(|t: TableEntryModel| t.name)
}

pub open spec fn not_among(names: Seq<Seq<char>>) -> spec_fn(Seq<char>) -> bool {
    |n: Seq<char>| !names.contains(n)
}

/// The tables of the backup before that are gone, in order, each once.
pub open spec fn dropped(base: Seq<TableEntryModel>, current: Seq<TableEntryModel>) -> Seq<Seq<char>> {
    assoc::listed(entry_names(base).filter(not_among(entry_names(current))).to_set())
}

fn names_of(tables: &Vec<TableEntry>) -> (r: Vec<String>)
    ensures
        r.deep_view() == entry_names(tables.deep_view()),
{
    let ghost target = entry_names(tables.deep_view());
    let mut out: Vec<String> = Vec::new();
    let mut i: usize = 0;
    assert(out.deep_view() =~= target.take(0));
    while i < tables.len()
        invariant
            i <= tables@.len(),
            target == entry_names(tables.deep_view()),
            out.deep_view() == target.take(i as int),
        decreases tables@.len() - i,
    {
        let ghost before = out.deep_view();
        out.push(text::copy_text(tables[i].name.as_str()));
        assert(out.deep_view() =~= before.push(target[i as int]));
        i += 1;
        assert(before.push(target[i - 1]) =~= target.take(i as int));
    }
    assert(target.take(i as int) =~= target);
    out
}

fn find_dropped(base: &Vec<TableEntry>, current: &Vec<TableEntry>) -> (r: Vec<String>)
    ensures
        r.deep_view() == dropped(base.deep_view(), current.deep_view()),
{
    let old_names = names_of(base);
    let names = names_of(current);
    let ghost all = old_names.deep_view();
    let ghost p = not_among(names.deep_view());
    let mut gone: Vec<String> = Vec::new();
    let mut i: usize = 0;
    proof {
        assert(all.take(0) =~= Seq::empty());
        assert(all.take(0).filter(p) =~= gone.deep_view()) by {
            reveal(Seq::filter);
        }
    }
    while i < old_names.len()
        invariant
            i <= old_names@.len(),
            all == old_names.deep_view(),
            p == not_among(names.deep_view()),
            gone.deep_view() == all.take(i as int).filter(p),
        decreases old_names@.len() - i,
    {
        let ghost before = gone.deep_view();
        assert(all[i as int] == old_names@[i as int]@);
        proof {
            seqs::filter_step(all, i as int, p);
        }
        if !assoc::has_name(&names, old_names[i].as_str()) {
            gone.push(text::copy_text(old_names[i].as_str()));
            assert(gone.deep_view() =~= before.push(all[i as int]));
        }
        i += 1;
    }
    assert(all.take(i as int) =~= all);
    assoc::listed_names(&gone)
}

pub open spec fn state_of(t: TableEntryModel) -> TableStateModel {
    TableStateModel { name: t.name, rows: t.rows, content_checksum: t.content_checksum }
}

pub open spec fn states_of(tables: Seq<TableEntryModel>) -> Seq<TableStateModel> {
    tables.map_values(|t: TableEntryModel| state_of(t))
}

fn entry_states(tables: &Vec<TableEntry>) -> (r: Vec<TableState>)
    ensures
        r.deep_view() == states_of(tables.deep_view()),
{
    let ghost target = states_of(tables.deep_view());
    let mut out: Vec<TableState> = Vec::new();
    let mut i: usize = 0;
    assert(out.deep_view() =~= target.take(0));
    while i < tables.len()
        invariant
            i <= tables@.len(),
            target == states_of(tables.deep_view()),
            out.deep_view() == target.take(i as int),
        decreases tables@.len() - i,
    {
        let ghost before = out.deep_view();
        out.push(
            TableState {
                name: text::copy_text(tables[i].name.as_str()),
                rows: tables[i].rows,
                content_checksum: text::copy_text(tables[i].content_checksum.as_str()),
            },
        );
        assert(out.deep_view() =~= before.push(target[i as int]));
        i += 1;
        assert(before.push(target[i - 1]) =~= target.take(i as int));
    }
    assert(target.take(i as int) =~= target);
    out
}

/// When and how a backup was made.
#[derive(Debug)]
pub struct BackupRun {
    pub version: String,
    pub database: String,
    pub created_at: String,
    pub duration_ms: u128,
    pub allow_non_transactional: bool,
    pub incremental_from: Option<String>,
}

pub open spec fn base_tables(base: Option<&Manifest>) -> Seq<TableEntryModel> {
    match base {
        Some(m) => m@.tables,
        None => Seq::empty(),
    }
}

/// The manifest of a backup: incremental where there is a backup before it, with the state that
/// one left as the state to build on.
pub open spec fn assembled(run: BackupRun, base: Option<&Manifest>, entries: Seq<TableEntryModel>) -> ManifestModel {
    ManifestModel {
        format_version: FORMAT_VERSION,
        tool: "mydbdump "@ + run.version@,
        kind: if base is Some {
            BackupKind::Incremental
        } else {
            BackupKind::Full
        },
        database: run.database@,
        created_at: run.created_at@,
        duration_ms: run.duration_ms,
        consistent_snapshot: !run.allow_non_transactional,
        table_locks: false,
        incremental_strategy: "table_content_sha256"@,
        parent_manifest: opt_text(run.incremental_from),
        parent_state: states_of(base_tables(base)),
        tables: entries_in_order(entries, entries.len() as int),
        dropped_tables: dropped(base_tables(base), entries),
    }
}

pub fn assemble_manifest(run: BackupRun, base: Option<&Manifest>, entries: &Vec<TableEntry>) -> (r: Manifest)
    ensures
        r@ == assembled(run, base, entries.deep_view()),
{
    let none: Vec<TableEntry> = Vec::new();
    assert(none.deep_view() =~= Seq::empty());
    let (kind, old_tables) = match base {
        Some(m) => (BackupKind::Incremental, &m.tables),
        None => (BackupKind::Full, &none),
    };
    let parent_state = entry_states(old_tables);
    let dropped_tables = find_dropped(old_tables, entries);
    let tables = sort_entries(entries);
    Manifest {
        format_version: FORMAT_VERSION,
        tool: error::cat2("mydbdump ", run.version.as_str()),
        kind: kind,
        database: run.database,
        created_at: run.created_at,
        duration_ms: run.duration_ms,
        consistent_snapshot: !run.allow_non_transactional,
        table_locks: false,
        incremental_strategy: text::copy_text("table_content_sha256"),
        parent_manifest: run.incremental_from,
        parent_state: parent_state,
        tables: tables,
        dropped_tables: dropped_tables,
    }
}

/// How many of the first `n` tables were dumped anew.
pub open spec fn replaced_count(tables: Seq<TableEntryModel>, n: int) -> nat
    decreases n,
{
    if n <= 0 || n > tables.len() {
        0
    } else {
        replaced_count(tables, n - 1) + if tables[n - 1].action == TableAction::Replace {
            1nat
        } else {
            0nat
        }
    }
}

pub open spec fn kind_name(kind: BackupKind) -> Seq<char> {
    match kind {
        BackupKind::Full => "full"@,
        BackupKind::Incremental => "incremental"@,
    }
}

pub open spec fn summary_text(m: ManifestModel) -> Seq<char> {
    kind_name(m.kind) + " backup complete: "@ + num::decimal(m.tables.len()) + " tables, "@ + num::decimal(
        replaced_count(m.tables, m.tables.len() as int),
    ) + " changed, "@ + num::decimal(m.dropped_tables.len()) + " dropped, "@ + num::decimal(
        m.duration_ms as nat,
    ) + " ms"@
}

/// What is reported once a backup stands.
pub fn backup_summary(m: &Manifest) -> (r: String)
    ensures
        r@ == summary_text(m@),
{
    let ghost all = m.tables.deep_view();
    let mut changed: usize = 0;
    let mut i: usize = 0;
    while i < m.tables.len()
        invariant
            i <= m.tables@.len(),
            changed <= i,
            all == m.tables.deep_view(),
            changed == replaced_count(all, i as int),
        decreases m.tables@.len() - i,
    {
        assert(all[i as int] == m.tables@[i as int]@);
        if m.tables[i].action == TableAction::Replace {
            changed += 1;
        }
        i += 1;
    }
    let kind = match m.kind {
        BackupKind::Full => "full",
        BackupKind::Incremental => "incremental",
    };
    let total = num::usize_text(m.tables.len());
    let new = num::usize_text(changed);
    let gone = num::usize_text(m.dropped_tables.len());
    let millis = num::u128_text(m.duration_ms);
    let mut s = error::cat7(
        kind,
        " backup complete: ",
        total.as_str(),
        " tables, ",
        new.as_str(),
        " changed, ",
        gone.as_str(),
    );
    s.append(" dropped, ");
    s.append(millis.as_str());
    s.append(" ms");
    s
}

// ---------------------------------------------------------------------------------------------
// Verifying
// ---------------------------------------------------------------------------------------------
pub fn check_format(m: &Manifest) -> (r: DbResult<()>)
    ensures
        error::outcome(r) == if m@.format_version != FORMAT_VERSION {
            Err::<(), Seq<char>>("unsupported backup format "@ + num::decimal(m@.format_version as nat))
        } else {
            Ok(())
        },
{
    if m.format_version != FORMAT_VERSION {
        let n = num::u64_text(m.format_version as u64);
        Err(DbError::new(error::cat2("unsupported backup format ", n.as_str())))
    } else {
        Ok(())
    }
}

/// The data file that an entry has. Only an unchanged table has none.
pub open spec fn file_of(t: TableEntryModel) -> Result<Option<Seq<char>>, Seq<char>> {
    match (t.data_file, t.data_file_checksum) {
        (Some(file), Some(_)) => Ok(Some(file)),
        (None, None) => if t.action == TableAction::Unchanged {
            Ok(None)
        } else {
            Err("invalid manifest data file state for `"@ + t.name + "`"@)
        },
        _ => Err("invalid manifest data file state for `"@ + t.name + "`"@),
    }
}

pub fn entry_file(t: &TableEntry) -> (r: DbResult<Option<String>>)
    ensures
        match (r, file_of(t@)) {
            (Ok(a), Ok(b)) => opt_text(a) == b,
            (Err(e), Err(m)) => e.message@ == m,
            _ => false,
        },
{
    let bad = error::cat3("invalid manifest data file state for `", t.name.as_str(), "`");
    match (&t.data_file, &t.data_file_checksum) {
        (Some(file), Some(_)) => Ok(Some(text::copy_text(file.as_str()))),
        (None, None) => {
            if t.action == TableAction::Unchanged {
                Ok(None)
            } else {
                Err(DbError::new(bad))
            }
        },
        _ => Err(DbError::new(bad)),
    }
}

/// Whether a data file is the one that an entry names, given what its stream holds.
pub open spec fn checked_data(
    t: TableEntryModel,
    stream: Seq<u8>,
    content: Result<Seq<u8>, Seq<char>>,
) -> Result<(), Seq<char>> {
    if t.data_file_checksum != Some(update::checksum_of(stream)) {
        Err("data file checksum mismatch for `"@ + t.name + "`"@)
    } else {
        match content {
            Err(e) => Err(e),
            Ok(data) => if data.len() != t.uncompressed_bytes {
                Err("uncompressed size mismatch for `"@ + t.name + "`"@)
            } else {
                Ok(())
            },
        }
    }
}

pub fn check_data(t: &TableEntry, stream: &[u8]) -> (r: DbResult<()>)
    ensures
        error::outcome(r) == checked_data(t@, stream@, zstd_content(stream@)),
{
    let actual = update::sha256_hex(stream);
    let expected = match &t.data_file_checksum {
        Some(c) => text::text_equal(c.as_str(), actual.as_str()),
        None => false,
    };
    if !expected {
        return Err(
            DbError::new(error::cat3("data file checksum mismatch for `", t.name.as_str(), "`")),
        );
    }
    match decompress(stream) {
        Err(e) => Err(e),
        Ok(data) => {
            if data.len() as u64 != t.uncompressed_bytes {
                Err(DbError::new(error::cat3("uncompressed size mismatch for `", t.name.as_str(), "`")))
            } else {
                Ok(())
            }
        },
    }
}

// ---------------------------------------------------------------------------------------------
// Restoring
// ---------------------------------------------------------------------------------------------
pub fn check_database(m: &Manifest, database: &str) -> (r: DbResult<()>)
    ensures
        error::outcome(r) == if m@.database != database@ {
            Err::<(), Seq<char>>(
                "backup database `"@ + m@.database + "` does not match target `"@ + database@ + "`"@,
            )
        } else {
            Ok(())
        },
{
    if text::text_equal(m.database.as_str(), database) {
        Ok(())
    } else {
        Err(
            DbError::new(
                error::cat5(
                    "backup database `",
                    m.database.as_str(),
                    "` does not match target `",
                    database,
                    "`",
                ),
            ),
        )
    }
}

/// One thing to do to bring a database to what a backup holds. Tables are named by their place in
/// the manifest.
#[derive(Debug, Clone, Copy, PartialEq, Eq, Structural)]
pub enum RestoreStep {
    /// The database must be what the parent backup left.
    CheckParent,
    /// Drop a table that is gone.
    DropGone(usize),
    /// Stop: replacing tables is not wanted.
    Refuse(usize),
    /// Drop a table that is to be written anew.
    DropTable(usize),
    CreateTable(usize),
    LoadData(usize),
    CheckTable(usize),
}

/// How the user wants a backup restored.
#[derive(Debug, Clone, Copy, PartialEq, Eq, Structural)]
pub struct RestoreOptions {
    pub replace_tables: bool,
    pub verify: bool,
    pub skip_chain_check: bool,
}

pub open spec fn gone_steps(n: nat) -> Seq<RestoreStep> {
    Seq::new(n, |i: int| RestoreStep::DropGone(i as usize))
}

/// What is done to one table.
pub open spec fn table_steps(t: TableEntryModel, at: usize, o: RestoreOptions) -> Seq<RestoreStep> {
    let made = seq![RestoreStep::DropTable(at), RestoreStep::CreateTable(at)];
    let loaded = if t.data_file is Some {
        made.push(RestoreStep::LoadData(at))
    } else {
        made
    };
    if o.verify {
        loaded.push(RestoreStep::CheckTable(at))
    } else {
        loaded
    }
}

/// What is done to the tables from `at` on: unchanged ones are left alone, and the first changed
/// one ends the work where tables must not be replaced.
pub open spec fn steps_from(tables: Seq<TableEntryModel>, at: int, o: RestoreOptions) -> Seq<RestoreStep>
    decreases tables.len() - at,
{
    if at < 0 || at >= tables.len() {
        Seq::empty()
    } else if tables[at].action == TableAction::Unchanged {
        steps_from(tables, at + 1, o)
    } else if !o.replace_tables {
        seq![RestoreStep::Refuse(at as usize)]
    } else {
        table_steps(tables[at], at as usize, o) + steps_from(tables, at + 1, o)
    }
}

pub open spec fn first_step(kind: BackupKind, o: RestoreOptions) -> Seq<RestoreStep> {
    if kind == BackupKind::Incremental && !o.skip_chain_check {
        seq![RestoreStep::CheckParent]
    } else {
        Seq::empty()
    }
}

pub open spec fn restore_plan(m: ManifestModel, o: RestoreOptions) -> Seq<RestoreStep> {
    first_step(m.kind, o) + gone_steps(m.dropped_tables.len()) + steps_from(m.tables, 0, o)
}

pub fn plan_restore(m: &Manifest, o: RestoreOptions) -> (r: Vec<RestoreStep>)
    ensures
        r@ == restore_plan(m@, o),
{
    let ghost all = m.tables.deep_view();
    let mut out: Vec<RestoreStep> = Vec::new();
    if m.kind == BackupKind::Incremental && !o.skip_chain_check {
        out.push(RestoreStep::CheckParent);
    }
    let ghost first = out@;
    assert(first =~= first_step(m.kind, o));
    let mut k: usize = 0;
    assert(first + gone_steps(0) =~= first);
    while k < m.dropped_tables.len()
        invariant
            k <= m.dropped_tables@.len(),
            out@ == first + gone_steps(k as nat),
        decreases m.dropped_tables@.len() - k,
    {
        out.push(RestoreStep::DropGone(k));
        k += 1;
        assert(out@ =~= first + gone_steps(k as nat));
    }
    let ghost head = out@;
    let mut i: usize = 0;
    assert(out@ + steps_from(all, 0, o) =~= head + steps_from(all, 0, o));
    while i < m.tables.len()
        invariant
            i <= m.tables@.len(),
            all == m.tables.deep_view(),
            m@.tables == all,
            head == first_step(m.kind, o) + gone_steps(m@.dropped_tables.len()),
            out@ + steps_from(all, i as int, o) == head + steps_from(all, 0, o),
        decreases m.tables@.len() - i,
    {
        assert(all[i as int] == m.tables@[i as int]@);
        let ghost before = out@;
        if m.tables[i].action != TableAction::Unchanged {
            if !o.replace_tables {
                out.push(RestoreStep::Refuse(i));
                assert(out@ =~= before + seq![RestoreStep::Refuse(i)]);
                return out;
            }
            out.push(RestoreStep::DropTable(i));
            out.push(RestoreStep::CreateTable(i));
            if m.tables[i].data_file.is_some() {
                out.push(RestoreStep::LoadData(i));
            }
            if o.verify {
                out.push(RestoreStep::CheckTable(i));
            }
            assert(out@ =~= before + table_steps(all[i as int], i, o));
            assert(before + table_steps(all[i as int], i, o) + steps_from(all, i + 1, o) =~= before + (
            table_steps(all[i as int], i, o) + steps_from(all, i + 1, o)));
        }
        i += 1;
    }
    assert(out@ + steps_from(all, i as int, o) =~= out@);
    out
}

/// Why a changed table stops a restore.
pub fn refusal(t: &TableEntry) -> (r: DbError)
    ensures
        r.message@ == "table replacement disabled but `"@ + t@.name + "` changed"@,
{
    DbError::new(error::cat3("table replacement disabled but `", t.name.as_str(), "` changed"))
}

/// Whether a restored table holds what its entry says.
pub fn check_restored(t: &TableEntry, rows: u64, checksum: &str) -> (r: DbResult<()>)
    ensures
        error::outcome(r) == if rows != t@.rows || checksum@ != t@.content_checksum {
            Err::<(), Seq<char>>("restored table `"@ + t@.name + "` failed content verification"@)
        } else {
            Ok(())
        },
{
    if rows != t.rows || !text::text_equal(checksum, t.content_checksum.as_str()) {
        Err(
            DbError::new(
                error::cat3("restored table `", t.name.as_str(), "` failed content verification"),
            ),
        )
    } else {
        Ok(())
    }
}

pub fn check_parent_known(expected: &Vec<TableState>) -> (r: DbResult<()>)
    ensures
        error::outcome(r) == if expected@.len() == 0 {
            Err::<(), Seq<char>>(
                "incremental backup has no parent state; use --skip-chain-check only after manual verification"@,
            )
        } else {
            Ok(())
        },
{
    if expected.len() == 0 {
        Err(
            DbError::of(
                "incremental backup has no parent state; use --skip-chain-check only after manual verification",
            ),
        )
    } else {
        Ok(())
    }
}

pub fn check_parent_table(state: &TableState, tables: &Vec<String>) -> (r: DbResult<()>)
    ensures
        error::outcome(r) == if tables.deep_view().contains(state@.name) {
            Ok::<(), Seq<char>>(())
        } else {
            Err("incremental base mismatch: table `"@ + state@.name + "` is missing"@)
        },
{
    if assoc::has_name(tables, state.name.as_str()) {
        Ok(())
    } else {
        Err(
            DbError::new(
                error::cat3("incremental base mismatch: table `", state.name.as_str(), "` is missing"),
            ),
        )
    }
}

pub fn check_parent_content(state: &TableState, rows: u64, checksum: &str) -> (r: DbResult<()>)
    ensures
        error::outcome(r) == if rows != state@.rows || checksum@ != state@.content_checksum {
            Err::<(), Seq<char>>(
                "incremental base mismatch for `"@ + state@.name + "`: expected "@ + num::decimal(
                    state@.rows as nat,
                ) + " rows and checksum "@ + state@.content_checksum,
            )
        } else {
            Ok(())
        },
{
    if rows != state.rows || !text::text_equal(checksum, state.content_checksum.as_str()) {
        let n = num::u64_text(state.rows);
        let mut s = error::cat5(
            "incremental base mismatch for `",
            state.name.as_str(),
            "`: expected ",
            n.as_str(),
            " rows and checksum ",
        );
        s.append(state.content_checksum.as_str());
        Err(DbError::new(s))
    } else {
        Ok(())
    }
}

// ---------------------------------------------------------------------------------------------
// Laws
// ---------------------------------------------------------------------------------------------
/// The text of the first `full` batches of rows.
pub open spec fn batches_text(d: TableDumpModel, tuples: Seq<Seq<char>>, full: nat) -> Seq<char>
    decreases full,
{
    if full == 0 {
        Seq::empty()
    } else {
        batches_text(d, tuples, (full - 1) as nat) + insert_text(
            d.table,
            d.columns,
            tuples.subrange((full - 1) * d.batch, (full * d.batch) as int),
        ) + "\n"@
    }
}

/// A dump that holds rows: `full` batches are written out, and the rest waits.
pub open spec fn holds_rows(d: TableDumpModel, tuples: Seq<Seq<char>>, full: nat) -> bool {
    &&& d.tuples.len() < d.batch
    &&& full * d.batch + d.tuples.len() == tuples.len()
    &&& d.tuples == tuples.skip((full * d.batch) as int)
    &&& d.sql == batches_text(d, tuples, full)
}

proof fn batches_grow(d: TableDumpModel, e: TableDumpModel, tuples: Seq<Seq<char>>, t: Seq<char>, full: nat)
    requires
        full * d.batch <= tuples.len(),
        e.batch == d.batch,
        e.table == d.table,
        e.columns == d.columns,
    ensures
        batches_text(e, tuples.push(t), full) == batches_text(d, tuples, full),
    decreases full,
{
    if full > 0 {
        assert((full - 1) * d.batch + d.batch == full * d.batch) by (nonlinear_arith);
        assert(0 <= (full - 1) * d.batch) by (nonlinear_arith)
            requires
                full > 0,
        ;
        batches_grow(d, e, tuples, t, (full - 1) as nat);
        assert(tuples.push(t).subrange((full - 1) * d.batch, (full * d.batch) as int) =~= tuples.subrange(
            (full - 1) * d.batch,
            (full * d.batch) as int,
        ));
    }
}

/// Each row that is added stands in the dump once, behind those that came before.
pub proof fn row_is_dumped_once(d: TableDumpModel, tuples: Seq<Seq<char>>, full: nat, row: Seq<CellModel>)
    requires
        holds_rows(d, tuples, full),
        row_added(d, row) is Ok,
    ensures
        ({
            let after = row_added(d, row)->Ok_0;
            let tuple = cells::tuple_of(row, false, "dump"@)->Ok_0;
            let n = if d.tuples.len() + 1 == d.batch {
                full + 1
            } else {
                full
            };
            holds_rows(after, tuples.push(tuple), n) && after.digests == d.digests.push(
                cells::row_digest(row, "dump"@)->Ok_0,
            )
        }),
{
    let after = row_added(d, row)->Ok_0;
    let t = cells::tuple_of(row, false, "dump"@)->Ok_0;
    let all = tuples.push(t);
    assert(0 <= full * d.batch) by (nonlinear_arith);
    batches_grow(d, after, tuples, t, full);
    let waiting = d.tuples.push(t);
    assert(waiting =~= all.skip((full * d.batch) as int));
    if d.tuples.len() + 1 == d.batch {
        assert((full + 1) * d.batch == full * d.batch + d.batch) by (nonlinear_arith);
        assert(all.subrange((full * d.batch) as int, ((full + 1) * d.batch) as int) =~= waiting);
        assert((full + 1 - 1) as nat == full);
        assert(batches_text(after, all, (full + 1) as nat) == batches_text(after, all, full) + insert_text(
            d.table,
            d.columns,
            waiting,
        ) + "\n"@);
        assert(after.tuples =~= all.skip(((full + 1) * d.batch) as int));
    }
}

/// Statements as they stand in a data file, each on a line of its own.
pub open spec fn lines_text(statements: Seq<Seq<char>>) -> Seq<char>
    decreases statements.len(),
{
    if statements.len() == 0 {
        Seq::empty()
    } else {
        statements[0] + "\n"@ + lines_text(statements.skip(1))
    }
}

/// A statement that a line can hold.
pub open spec fn fits_line(s: Seq<char>) -> bool {
    !search::has_char(s, '\n') && text::trim(s).len() > 0 && s.last() != '\r'
}

/// Statements that lines can hold are read back from a data file as they were written.
pub proof fn statements_are_read_back(statements: Seq<Seq<char>>, stream: Seq<u8>)
    requires
        forall|i: int| 0 <= i < statements.len() ==> fits_line(#[trigger] statements[i]),
        zstd_content(stream) == Ok::<Seq<u8>, Seq<char>>(text::bytes_of(lines_text(statements))),
    ensures
        unpacked(zstd_content(stream)) == Ok::<Seq<Seq<char>>, Seq<char>>(statements),
{
    let sql = lines_text(statements);
    encode_utf8_valid_utf8(sql);
    encode_utf8_decode_utf8(sql);
    lines_return(Seq::empty(), statements);
    assert(Seq::<char>::empty() + sql =~= sql);
    assert forall|i: int| 0 <= i < statements.len() implies not_blank()(#[trigger] statements[i]) by {
        assert(fits_line(statements[i]));
    }
    all_kept(statements, not_blank());
}

proof fn all_kept(s: Seq<Seq<char>>, p: spec_fn(Seq<char>) -> bool)
    requires
        forall|i: int| 0 <= i < s.len() ==> p(#[trigger] s[i]),
    ensures
        s.filter(p) == s,
    decreases s.len(),
{
    reveal(Seq::filter);
    if s.len() > 0 {
        all_kept(s.drop_last(), p);
        assert(p(s[s.len() - 1]));
        assert(s =~= s.drop_last().push(s.last()));
    } else {
        assert(s.filter(p) =~= s);
    }
}

proof fn lines_return(before: Seq<char>, statements: Seq<Seq<char>>)
    requires
        forall|i: int| 0 <= i < statements.len() ==> fits_line(#[trigger] statements[i]),
    ensures
        search::lines_from(
            before + lines_text(statements),
            before.len() as int,
            before.len() as int,
        ) == statements,
    decreases statements.len(),
{
    reveal_strlit("\n");
    let s = before + lines_text(statements);
    let k = before.len() as int;
    if statements.len() > 0 {
        let first = statements[0];
        let rest = statements.skip(1);
        let next = before + first + "\n"@;
        assert(fits_line(first));
        assert forall|i: int| 0 <= i < rest.len() implies fits_line(#[trigger] rest[i]) by {
            assert(fits_line(statements[i + 1]));
        }
        lines_return(next, rest);
        assert(s =~= next + lines_text(rest));
        assert("\n"@ =~= seq!['\n']);
        assert forall|i: int| 0 <= i < first.len() implies first[i] != '\n' by {
            assert(!search::has_char(first, '\n'));
        }
        assert forall|i: int| 0 <= i < first.len() implies s[k + i] == #[trigger] first[i] by {}
        line_found(s, k, k, k + first.len());
        assert(first.len() > 0) by {
            if first.len() == 0 {
                text::trim_start_stops(first, text::white_fn());
                text::trim_end_stops(text::trim_start_by(first, text::white_fn()), text::white_fn());
            }
        }
        assert(s[k + first.len() - 1] == first.last());
        assert(s.subrange(k, k + first.len()) =~= first);
        assert(seq![first] + rest =~= statements);
    } else {
        assert(s =~= before);
        assert(search::lines_from(s, k, k) =~= Seq::<Seq<char>>::empty());
        assert(statements =~= Seq::<Seq<char>>::empty());
    }
}

proof fn line_found(s: Seq<char>, from: int, at: int, end: int)
    requires
        0 <= from <= at <= end < s.len(),
        s[end] == '\n',
        forall|i: int| at <= i < end ==> s[i] != '\n',
    ensures
        search::lines_from(s, from, at) == search::lines_from(s, from, end),
    decreases end - at,
{
    if at < end {
        line_found(s, from, at + 1, end);
    }
}

/// The entry of a table that was dumped anew verifies against its data file.
pub proof fn dumped_table_verifies(
    name: Seq<char>,
    ddl: Seq<char>,
    rows: u64,
    content_checksum: Seq<char>,
    sql: Seq<char>,
    stream: Seq<u8>,
    prior: Option<TableEntryModel>,
)
    requires
        zstd_content(stream) == Ok::<Seq<u8>, Seq<char>>(text::bytes_of(sql)),
        text::bytes_of(sql).len() <= u64::MAX,
    ensures
        ({
            let t = settled(
                name,
                ddl,
                rows,
                content_checksum,
                text::bytes_of(sql).len() as u64,
                stream,
                prior,
            );
            file_of(t) is Ok && (t.action == TableAction::Replace ==> file_of(t)
                == Ok::<Option<Seq<char>>, Seq<char>>(Some(data_file(name))) && checked_data(
                t,
                stream,
                zstd_content(stream),
            ) is Ok)
        }),
{
}

/// Different tables have different data files.
pub proof fn data_files_stand_apart(a: Seq<char>, b: Seq<char>)
    requires
        data_file(a) == data_file(b),
    ensures
        a == b,
{
    let x = data_file(a);
    let p = "table-"@.len() as int;
    let q = ".sql.zst"@.len() as int;
    assert(x.subrange(p, x.len() - q) =~= num::hex(text::bytes_of(a), false));
    assert(data_file(b).subrange(p, x.len() - q) =~= num::hex(text::bytes_of(b), false));
    num::hex_injective(text::bytes_of(a), text::bytes_of(b), false);
    encode_utf8_decode_utf8(a);
    encode_utf8_decode_utf8(b);
}

/// An unchanged table is not touched by a restore: every step is about a table that changed.
pub proof fn unchanged_tables_are_left_alone(tables: Seq<TableEntryModel>, at: int, o: RestoreOptions, i: int)
    requires
        0 <= at <= tables.len() <= usize::MAX,
        0 <= i < steps_from(tables, at, o).len(),
    ensures
        match steps_from(tables, at, o)[i] {
            RestoreStep::Refuse(k) => at <= k < tables.len() && tables[k as int].action != TableAction::Unchanged,
            RestoreStep::DropTable(k) => at <= k < tables.len() && tables[k as int].action
                != TableAction::Unchanged,
            RestoreStep::CreateTable(k) => at <= k < tables.len() && tables[k as int].action
                != TableAction::Unchanged,
            RestoreStep::LoadData(k) => at <= k < tables.len() && tables[k as int].action
                != TableAction::Unchanged,
            RestoreStep::CheckTable(k) => at <= k < tables.len() && tables[k as int].action
                != TableAction::Unchanged,
            _ => false,
        },
    decreases tables.len() - at,
{
    if at < tables.len() {
        if tables[at].action == TableAction::Unchanged {
            unchanged_tables_are_left_alone(tables, at + 1, o, i);
        } else if o.replace_tables {
            let own = table_steps(tables[at], at as usize, o);
            if i >= own.len() {
                unchanged_tables_are_left_alone(tables, at + 1, o, i - own.len());
            }
        }
    }
}

/// The entries of a manifest stand in the order of their names.
pub proof fn entries_are_sorted(list: Seq<TableEntryModel>, n: int, i: int, j: int)
    requires
        0 <= n <= list.len(),
        0 <= i < j < entries_in_order(list, n).len(),
    ensures
        !assoc::text_less(entries_in_order(list, n)[j].name, entries_in_order(list, n)[i].name),
    decreases n,
{
    let after = entries_in_order(list, n);
    let before = entries_in_order(list, n - 1);
    let x = list[n - 1];
    let p = entry_place(before, x, 0);
    entry_place_bounds(before, x, 0);
    if j < p {
        entries_are_sorted(list, n - 1, i, j);
    } else if j == p {
        assert(!assoc::text_less(x.name, before[i].name));
    } else if i < p {
        entries_are_sorted(list, n - 1, i, j - 1);
    } else if i > p {
        entries_are_sorted(list, n - 1, i - 1, j - 1);
    } else {
        let y = before[j - 1];
        if assoc::text_less(y.name, x.name) {
            assoc::less_transitive(y.name, x.name, before[p].name);
            if j - 1 > p {
                entries_are_sorted(list, n - 1, p, j - 1);
            } else {
                assoc::less_irreflexive(y.name);
            }
        }
    }
}

} // verus!
