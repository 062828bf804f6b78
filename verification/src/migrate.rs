//! Migration: copying the tables of one database into another and proving the copy right.
use crate::assoc;
use crate::cells;
use crate::cells::{Cell, CellModel};
use crate::error;
use crate::error::{DbError, DbResult};
use crate::search;
use crate::sqltext;
use crate::text;
use vstd::prelude::*;

verus! {

/// What became of one table.
#[derive(Debug)]
pub struct TableReport {
    pub table: String,
    pub source_rows: u64,
    pub copied_rows: u64,
    pub target_rows: u64,
    pub source_checksum: String,
    pub target_checksum: String,
    pub verified: bool,
    pub duration_ms: u128,
}

pub struct TableReportModel {
    pub table: Seq<char>,
    pub source_rows: u64,
    pub copied_rows: u64,
    pub target_rows: u64,
    pub source_checksum: Seq<char>,
    pub target_checksum: Seq<char>,
    pub verified: bool,
    pub duration_ms: u128,
}

impl View for TableReport {
    type V = TableReportModel;

    open spec fn view(&self) -> TableReportModel {
        TableReportModel {
            table: self.table@,
            source_rows: self.source_rows,
            copied_rows: self.copied_rows,
            target_rows: self.target_rows,
            source_checksum: self.source_checksum@,
            target_checksum: self.target_checksum@,
            verified: self.verified,
            duration_ms: self.duration_ms,
        }
    }
}

impl DeepView for TableReport {
    type V = TableReportModel;

    open spec fn deep_view(&self) -> TableReportModel {
        self@
    }
}

/// What became of a migration.
#[derive(Debug)]
pub struct MigrationReport {
    pub database: String,
    pub started_at: String,
    pub finished_at: String,
    pub duration_ms: u128,
    pub schema_only: bool,
    pub data_only: bool,
    pub verified: bool,
    pub tables: Vec<TableReport>,
}

pub struct MigrationReportModel {
    pub database: Seq<char>,
    pub started_at: Seq<char>,
    pub finished_at: Seq<char>,
    pub duration_ms: u128,
    pub schema_only: bool,
    pub data_only: bool,
    pub verified: bool,
    pub tables: Seq<TableReportModel>,
}

impl View for MigrationReport {
    type V = MigrationReportModel;

    open spec fn view(&self) -> MigrationReportModel {
        MigrationReportModel {
            database: self.database@,
            started_at: self.started_at@,
            finished_at: self.finished_at@,
            duration_ms: self.duration_ms,
            schema_only: self.schema_only,
            data_only: self.data_only,
            verified: self.verified,
            tables: self.tables.deep_view(),
        }
    }
}

// ---------------------------------------------------------------------------------------------
// Before the copy
// ---------------------------------------------------------------------------------------------
/// The address of a server: from the command line, else from the environment.
pub open spec fn url_of(
    value: Option<Seq<char>>,
    variable_value: Option<Seq<char>>,
    variable: Seq<char>,
    flag: Seq<char>,
) -> Result<Seq<char>, Seq<char>> {
    match (value, variable_value) {
        (Some(u), _) => Ok(u),
        (None, Some(u)) => Ok(u),
        (None, None) => Err("missing "@ + flag + " or "@ + variable),
    }
}

pub open spec fn text_option(s: Option<String>) -> Option<Seq<char>> {
    match s {
        Some(t) => Some(t@),
        None => None,
    }
}

pub fn required_url(value: Option<String>, variable_value: Option<String>, variable: &str, flag: &str) -> (r:
    DbResult<String>)
    ensures
        error::outcome(r) == url_of(text_option(value), text_option(variable_value), variable@, flag@),
{
    match value {
        Some(u) => Ok(u),
        None => match variable_value {
            Some(u) => Ok(u),
            None => Err(DbError::new(error::cat4("missing ", flag, " or ", variable))),
        },
    }
}

/// The literal of bytes in a migration.
pub open spec fn quoted_string(b: Seq<u8>) -> Seq<char> {
    cells::hex_quoted(b, true)
}

pub fn quote_string(value: &[u8]) -> (r: String)
    ensures
        r@ == quoted_string(value@),
{
    cells::quote_hex(value, true)
}

pub fn value_sql(value: &Cell) -> (r: DbResult<String>)
    ensures
        error::outcome(r) == cells::sql_of(value@, true, "migrate"@),
{
    cells::cell_sql(value, true, "migrate")
}

pub fn hash_row(values: &Vec<Cell>) -> (r: DbResult<Vec<u8>>)
    ensures
        error::outcome(r) == cells::row_digest(values.deep_view(), "migrate"@),
{
    cells::digest_row(values, "migrate")
}

/// The query for the tables of a database.
pub fn tables_query(database: &str) -> (r: String)
    ensures
        r@ == "SELECT TABLE_NAME FROM INFORMATION_SCHEMA.TABLES WHERE TABLE_SCHEMA="@ + quoted_string(
            text::bytes_of(database@),
        ) + " AND TABLE_TYPE='BASE TABLE' ORDER BY TABLE_NAME"@,
{
    let literal = quote_string(text::text_bytes(database).as_slice());
    error::cat3(
        "SELECT TABLE_NAME FROM INFORMATION_SCHEMA.TABLES WHERE TABLE_SCHEMA=",
        literal.as_str(),
        " AND TABLE_TYPE='BASE TABLE' ORDER BY TABLE_NAME",
    )
}

/// The query for the columns of a table.
pub fn columns_query(database: &str, table: &str) -> (r: String)
    ensures
        r@ == "SELECT COLUMN_NAME FROM INFORMATION_SCHEMA.COLUMNS WHERE TABLE_SCHEMA="@ + quoted_string(
            text::bytes_of(database@),
        ) + " AND TABLE_NAME="@ + quoted_string(text::bytes_of(table@)) + " ORDER BY ORDINAL_POSITION"@,
{
    let d = quote_string(text::text_bytes(database).as_slice());
    let t = quote_string(text::text_bytes(table).as_slice());
    error::cat5(
        "SELECT COLUMN_NAME FROM INFORMATION_SCHEMA.COLUMNS WHERE TABLE_SCHEMA=",
        d.as_str(),
        " AND TABLE_NAME=",
        t.as_str(),
        " ORDER BY ORDINAL_POSITION",
    )
}

/// The first of the requested tables from `at` on that is not there.
pub open spec fn first_unknown(available: Seq<Seq<char>>, requested: Seq<Seq<char>>, at: int) -> Option<Seq<char>>
    decreases requested.len() - at,
{
    if at < 0 || at >= requested.len() {
        None
    } else if !available.contains(requested[at]) {
        Some(requested[at])
    } else {
        first_unknown(available, requested, at + 1)
    }
}

/// The tables to copy: those that were asked for, or all.
pub open spec fn chosen_tables(available: Seq<Seq<char>>, requested: Seq<Seq<char>>) -> Result<
    Seq<Seq<char>>,
    Seq<char>,
> {
    if requested.len() == 0 {
        Ok(available)
    } else {
        match first_unknown(available, requested, 0) {
            Some(table) => Err("source table `"@ + table + "` does not exist"@),
            None => Ok(requested),
        }
    }
}

pub fn choose_tables(available: Vec<String>, requested: &Vec<String>) -> (r: DbResult<Vec<String>>)
    ensures
        error::outcome(r) == chosen_tables(available.deep_view(), requested.deep_view()),
{
    assert(requested.deep_view().len() == requested@.len());
    if requested.len() == 0 {
        return Ok(available);
    }
    let ghost all = available.deep_view();
    let ghost names = requested.deep_view();
    let mut out: Vec<String> = Vec::new();
    let mut i: usize = 0;
    assert(out.deep_view() =~= names.take(0));
    while i < requested.len()
        invariant
            i <= requested@.len(),
            all == available.deep_view(),
            names == requested.deep_view(),
            names.len() > 0,
            out.deep_view() == names.take(i as int),
            first_unknown(all, names, i as int) == first_unknown(all, names, 0),
        decreases requested@.len() - i,
    {
        assert(names[i as int] == requested@[i as int]@);
        if !assoc::has_name(&available, requested[i].as_str()) {
            return Err(
                DbError::new(error::cat3("source table `", requested[i].as_str(), "` does not exist")),
            );
        }
        let ghost before = out.deep_view();
        out.push(text::copy_text(requested[i].as_str()));
        assert(out.deep_view() =~= before.push(names[i as int]));
        i += 1;
        assert(before.push(names[i - 1]) =~= names.take(i as int));
    }
    assert(names.take(i as int) =~= names);
    Ok(out)
}

/// Whether a table must be dropped before it is created; one that stands in the way is dropped
/// only where that is wanted.
pub open spec fn must_drop(table: Seq<char>, present: Seq<Seq<char>>, drop_existing: bool) -> Result<bool, Seq<char>> {
    if !present.contains(table) {
        Ok(false)
    } else if drop_existing {
        Ok(true)
    } else {
        Err("target table `"@ + table + "` exists; rerun with --drop-existing or --data-only"@)
    }
}

pub fn check_target_table(table: &str, present: &Vec<String>, drop_existing: bool) -> (r: DbResult<bool>)
    ensures
        error::outcome(r) == must_drop(table@, present.deep_view(), drop_existing),
{
    if !assoc::has_name(present, table) {
        Ok(false)
    } else if drop_existing {
        Ok(true)
    } else {
        Err(
            DbError::new(
                error::cat3("target table `", table, "` exists; rerun with --drop-existing or --data-only"),
            ),
        )
    }
}

// ---------------------------------------------------------------------------------------------
// The copy
// ---------------------------------------------------------------------------------------------
/// The first `n` rows as tuples; each must have as many values as there are columns.
pub open spec fn tuples_of(rows: Seq<Seq<CellModel>>, columns: nat, n: int) -> Result<Seq<Seq<char>>, Seq<char>>
    decreases n,
{
    if n <= 0 || n > rows.len() {
        Ok(Seq::empty())
    } else {
        match tuples_of(rows, columns, n - 1) {
            Err(e) => Err(e),
            Ok(before) => if rows[n - 1].len() != columns {
                Err("source row column count changed during migration"@)
            } else {
                match cells::tuple_of(rows[n - 1], true, "migrate"@) {
                    Err(e) => Err(e),
                    Ok(t) => Ok(before.push(t)),
                }
            },
        }
    }
}

/// The statement that writes a batch of rows.
pub open spec fn batch_statement(table: Seq<char>, columns: Seq<Seq<char>>, rows: Seq<Seq<CellModel>>) -> Result<
    Seq<char>,
    Seq<char>,
> {
    match tuples_of(rows, columns.len(), rows.len() as int) {
        Err(e) => Err(e),
        Ok(tuples) => Ok(
            "INSERT INTO "@ + sqltext::quoted(table) + " ("@ + search::joined(sqltext::quoted_all(columns), ","@)
                + ") VALUES "@ + search::joined(tuples, ","@),
        ),
    }
}

proof fn tuples_stop(rows: Seq<Seq<CellModel>>, columns: nat, m: int, n: int)
    requires
        0 <= m <= n <= rows.len(),
        tuples_of(rows, columns, m) is Err,
    ensures
        tuples_of(rows, columns, n) == tuples_of(rows, columns, m),
    decreases n - m,
{
    if m < n {
        tuples_stop(rows, columns, m, n - 1);
    }
}

pub fn batch_sql(table: &str, columns: &Vec<String>, rows: &Vec<Vec<Cell>>) -> (r: DbResult<String>)
    ensures
        error::outcome(r) == batch_statement(table@, columns.deep_view(), rows.deep_view()),
{
    let ghost all = rows.deep_view();
    let ghost width = columns.deep_view().len();
    let mut tuples: Vec<String> = Vec::new();
    let mut i: usize = 0;
    assert(tuples.deep_view() =~= Seq::empty());
    while i < rows.len()
        invariant
            i <= rows@.len(),
            all == rows.deep_view(),
            width == columns@.len(),
            width == columns.deep_view().len(),
            tuples_of(all, width, i as int) == Ok::<Seq<Seq<char>>, Seq<char>>(tuples.deep_view()),
        decreases rows@.len() - i,
    {
        let ghost before = tuples.deep_view();
        assert(all[i as int] == rows@[i as int].deep_view());
        assert(all[i as int].len() == rows@[i as int]@.len());
        if rows[i].len() != columns.len() {
            proof {
                tuples_stop(all, width, i + 1, all.len() as int);
            }
            return Err(DbError::of("source row column count changed during migration"));
        }
        match cells::row_tuple(&rows[i], true, "migrate") {
            Err(e) => {
                proof {
                    tuples_stop(all, width, i + 1, all.len() as int);
                }
                return Err(e);
            },
            Ok(t) => {
                let ghost tuple = t@;
                tuples.push(t);
                assert(tuples.deep_view() =~= before.push(tuple));
            },
        }
        i += 1;
    }
    let name = sqltext::quote_name(table);
    let list = sqltext::quote_names(columns);
    let parts = tuples.as_slice();
    assert(parts.deep_view() =~= tuples.deep_view());
    let values = search::join(parts, ",");
    let mut s = error::cat5("INSERT INTO ", name.as_str(), " (", list.as_str(), ") VALUES ");
    s.append(values.as_str());
    Ok(s)
}

pub fn check_columns(table: &str, columns: &Vec<String>) -> (r: DbResult<()>)
    ensures
        error::outcome(r) == if columns@.len() == 0 {
            Err::<(), Seq<char>>("source table `"@ + table@ + "` has no columns"@)
        } else {
            Ok(())
        },
{
    if columns.len() == 0 {
        Err(DbError::new(error::cat3("source table `", table, "` has no columns")))
    } else {
        Ok(())
    }
}

// ---------------------------------------------------------------------------------------------
// Reports
// ---------------------------------------------------------------------------------------------
/// The report on a table: the copy is right where both sides and the count of what was written
/// agree, and the rows have the same digest.
pub open spec fn reported(
    table: Seq<char>,
    source_rows: u64,
    copied_rows: u64,
    source: Seq<Seq<u8>>,
    target: Seq<Seq<u8>>,
    duration_ms: u128,
) -> TableReportModel {
    TableReportModel {
        table: table,
        source_rows: source_rows,
        copied_rows: copied_rows,
        target_rows: target.len() as u64,
        source_checksum: cells::table_digest(source),
        target_checksum: cells::table_digest(target),
        verified: source_rows == copied_rows && copied_rows == target.len() && cells::table_digest(source)
            == cells::table_digest(target),
        duration_ms: duration_ms,
    }
}

pub fn report_table(
    table: &str,
    source_rows: u64,
    copied_rows: u64,
    source_hashes: &Vec<Vec<u8>>,
    target_hashes: &Vec<Vec<u8>>,
    duration_ms: u128,
) -> (r: TableReport)
    ensures
        r@ == reported(
            table@,
            source_rows,
            copied_rows,
            source_hashes.deep_view(),
            target_hashes.deep_view(),
            duration_ms,
        ),
{
    let target_rows: u64 = target_hashes.len() as u64;
    let source_checksum = cells::digest_table(source_hashes);
    let target_checksum = cells::digest_table(target_hashes);
    let verified = source_rows == copied_rows && copied_rows == target_rows && text::text_equal(
        source_checksum.as_str(),
        target_checksum.as_str(),
    );
    TableReport {
        table: text::copy_text(table),
        source_rows: source_rows,
        copied_rows: copied_rows,
        target_rows: target_rows,
        source_checksum: source_checksum,
        target_checksum: target_checksum,
        verified: verified,
        duration_ms: duration_ms,
    }
}

/// The report on a table of which only the definition was copied.
pub fn schema_report(table: &str) -> (r: TableReport)
    ensures
        r@ == (TableReportModel {
            table: table@,
            source_rows: 0,
            copied_rows: 0,
            target_rows: 0,
            source_checksum: Seq::empty(),
            target_checksum: Seq::empty(),
            verified: true,
            duration_ms: 0,
        }),
{
    let r = TableReport {
        table: text::copy_text(table),
        source_rows: 0,
        copied_rows: 0,
        target_rows: 0,
        source_checksum: String::new(),
        target_checksum: String::new(),
        verified: true,
        duration_ms: 0,
    };
    assert(r.source_checksum@ =~= Seq::empty());
    assert(r.target_checksum@ =~= Seq::empty());
    r
}

pub open spec fn all_verified(tables: Seq<TableReportModel>) -> bool {
    forall|i: int| 0 <= i < tables.len() ==> (#[trigger] tables[i]).verified
}

/// When and how a migration ran.
#[derive(Debug)]
pub struct MigrationRun {
    pub database: String,
    pub started_at: String,
    pub finished_at: String,
    pub duration_ms: u128,
    pub schema_only: bool,
    pub data_only: bool,
}

pub fn migration_report(run: MigrationRun, tables: Vec<TableReport>) -> (r: MigrationReport)
    ensures
        r@ == (MigrationReportModel {
            database: run.database@,
            started_at: run.started_at@,
            finished_at: run.finished_at@,
            duration_ms: run.duration_ms,
            schema_only: run.schema_only,
            data_only: run.data_only,
            verified: all_verified(tables.deep_view()),
            tables: tables.deep_view(),
        }),
{
    let ghost all = tables.deep_view();
    let mut verified = true;
    let mut i: usize = 0;
    while i < tables.len()
        invariant
            i <= tables@.len(),
            all == tables.deep_view(),
            verified == forall|j: int| 0 <= j < i ==> (#[trigger] all[j]).verified,
        decreases tables@.len() - i,
    {
        assert(all[i as int] == tables@[i as int]@);
        verified = verified && tables[i].verified;
        i += 1;
    }
    MigrationReport {
        database: run.database,
        started_at: run.started_at,
        finished_at: run.finished_at,
        duration_ms: run.duration_ms,
        schema_only: run.schema_only,
        data_only: run.data_only,
        verified: verified,
        tables: tables,
    }
}

// ---------------------------------------------------------------------------------------------
// Laws
// ---------------------------------------------------------------------------------------------
/// A table whose rows arrived, in whatever order, is reported as right.
pub proof fn faithful_copies_are_verified(table: Seq<char>, source: Seq<Seq<u8>>, target: Seq<Seq<u8>>, ms: u128)
    requires
        source.len() <= u64::MAX,
        source.to_multiset() == target.to_multiset(),
    ensures
        reported(table, source.len() as u64, source.len() as u64, source, target, ms).verified,
{
    cells::row_order_does_not_matter(source, target);
    source.to_multiset_ensures();
    target.to_multiset_ensures();
}

/// A lost or surplus row is never reported as right.
pub proof fn lost_rows_are_found(
    table: Seq<char>,
    source_rows: u64,
    copied: u64,
    source: Seq<Seq<u8>>,
    target: Seq<Seq<u8>>,
    ms: u128,
)
    requires
        target.len() != source_rows,
    ensures
        !reported(table, source_rows, copied, source, target, ms).verified,
{
}

} // verus!
