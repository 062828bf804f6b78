//! Foreign keys at work: what a statement does to the tables that refer to the rows it changes.
use crate::altercheck;
use crate::assoc;
use crate::commands;
use crate::commands::{CommandModel, SetModel, WriteCommand};
use crate::database;
use crate::dmlcheck;
use crate::error;
use crate::error::{DbError, DbResult};
use crate::fkeys;
use crate::fkeys::{ForeignKeyModel, ForeignKeySpec, ReferentialAction};
use crate::images;
use crate::predicate;
use crate::predicate::{Context, ContextModel, PredicateModel, RowPredicate};
use crate::row::{Row, RowModel};
use crate::schema::{SchemaModel, TableSchema};
use crate::seqs;
use crate::table;
use crate::text;
use crate::validate::TablesModel;
use crate::values;
use vstd::prelude::*;

verus! {

/// How many changed rows a statement may lead to.
pub const CASCADE_LIMIT: u64 = 100_000;

/// The rows of the tables that foreign keys relate.
pub type RelatedModel = Seq<(Seq<char>, Seq<RowModel>)>;

/// A row of a table that changed: as it was, and as it is now unless it was deleted.
pub struct ChangeModel {
    pub table: Seq<char>,
    pub before: RowModel,
    pub after: Option<RowModel>,
}

pub struct Change {
    pub table: String,
    pub before: Row,
    pub after: Option<Row>,
}

impl View for Change {
    type V = ChangeModel;

    open spec fn view(&self) -> ChangeModel {
        ChangeModel {
            table: self.table@,
            before: self.before@,
            after: self.after.deep_view(),
        }
    }
}

impl DeepView for Change {
    type V = ChangeModel;

    open spec fn deep_view(&self) -> ChangeModel {
        self@
    }
}

// ---------------------------------------------------------------------------------------------
// What a command does to the rows of its own table
// ---------------------------------------------------------------------------------------------
/// The rows of a table, how many count as affected, and which of them changed.
#[verifier::ext_equal]
pub struct SourceModel {
    pub rows: Seq<RowModel>,
    pub affected: u64,
    pub changes: Seq<ChangeModel>,
}

pub struct Source {
    pub rows: Vec<Row>,
    pub affected: u64,
    pub changes: Vec<Change>,
}

impl View for Source {
    type V = SourceModel;

    open spec fn view(&self) -> SourceModel {
        SourceModel {
            rows: self.rows.deep_view(),
            affected: self.affected,
            changes: self.changes.deep_view(),
        }
    }
}

impl DeepView for Source {
    type V = SourceModel;

    open spec fn deep_view(&self) -> SourceModel {
        self@
    }
}

pub open spec fn upsert_source(
    rows: Seq<RowModel>,
    t: Seq<char>,
    s: SchemaModel,
    r: RowModel,
    columns: Seq<Seq<char>>,
    ignore: bool,
    cx: ContextModel,
) -> Result<SourceModel, Seq<char>> {
    match values::materialized(r, s, cx.moment) {
        Err(e) => Err(e),
        Ok(incoming) => match dmlcheck::conflicting_from(rows, incoming, s, 0) {
            None => Ok(
                SourceModel { rows: rows.push(incoming), affected: 1, changes: Seq::empty() },
            ),
            Some(i) => if ignore {
                Ok(SourceModel { rows: rows, affected: 0, changes: Seq::empty() })
            } else {
                match values::materialized(
                    images::taken_from(rows[i], incoming, columns, 0),
                    s,
                    cx.moment,
                ) {
                    Err(e) => Err(e),
                    Ok(after) => if after == rows[i] {
                        Ok(SourceModel { rows: rows, affected: 0, changes: Seq::empty() })
                    } else {
                        Ok(
                            SourceModel {
                                rows: rows.update(i, after),
                                affected: 2,
                                changes: seq![
                                    ChangeModel {
                                        table: t,
                                        before: rows[i],
                                        after: Some(after),
                                    },
                                ],
                            },
                        )
                    },
                }
            },
        },
    }
}

/// The rows from the `at`-th on after an UPDATE; every row that it matches counts.
pub open spec fn update_source(
    rows: Seq<RowModel>,
    t: Seq<char>,
    s: SchemaModel,
    filter: Option<PredicateModel>,
    sets: SetModel,
    cx: ContextModel,
    at: int,
    done: SourceModel,
) -> Result<SourceModel, Seq<char>>
    decreases rows.len() - at,
{
    if at < 0 || at >= rows.len() {
        Ok(done)
    } else if !predicate::passes(filter, rows[at], cx) {
        update_source(
            rows,
            t,
            s,
            filter,
            sets,
            cx,
            at + 1,
            SourceModel { rows: done.rows.push(rows[at]), ..done },
        )
    } else {
        match values::materialized(images::set_from(rows[at], sets, 0), s, cx.moment) {
            Err(e) => Err(e),
            Ok(after) => update_source(
                rows,
                t,
                s,
                filter,
                sets,
                cx,
                at + 1,
                SourceModel {
                    rows: done.rows.push(after),
                    affected: done.affected.saturating_add(1),
                    changes: done.changes.push(
                        ChangeModel { table: t, before: rows[at], after: Some(after) },
                    ),
                },
            ),
        }
    }
}

/// The deletion of rows.
pub open spec fn deletions(rows: Seq<RowModel>, t: Seq<char>) -> Seq<ChangeModel> {
    rows.map_values(|r: RowModel| ChangeModel { table: t, before: r, after: None })
}

pub open spec fn absent_fn(rows: Seq<RowModel>) -> spec_fn(RowModel) -> bool {
    |r: RowModel| !rows.contains(r)
}

#[verifier::opaque]
pub open spec fn source_step(
    c: CommandModel,
    rows: Seq<RowModel>,
    t: Seq<char>,
    s: SchemaModel,
    cx: ContextModel,
) -> Result<SourceModel, Seq<char>> {
    match c {
        CommandModel::Insert { row, .. } => match values::materialized(row, s, cx.moment) {
            Err(e) => Err(e),
            Ok(full) => Ok(
                SourceModel { rows: rows.push(full), affected: 1, changes: Seq::empty() },
            ),
        },
        CommandModel::Upsert { row, update_columns, ignore, .. } => upsert_source(
            rows,
            t,
            s,
            row,
            update_columns,
            ignore,
            cx,
        ),
        CommandModel::Update { filter, assignments, .. } => update_source(
            rows,
            t,
            s,
            filter,
            assignments,
            cx,
            0,
            SourceModel { rows: Seq::empty(), affected: 0, changes: Seq::empty() },
        ),
        CommandModel::ReplaceRows { rows: given, affected_rows, .. } => {
            match images::materialized_all(given, s, cx.moment) {
                Err(e) => Err(e),
                Ok(full) => Ok(
                    SourceModel {
                        rows: full,
                        affected: affected_rows,
                        changes: deletions(rows.filter(absent_fn(full)), t),
                    },
                ),
            }
        },
        CommandModel::Delete { filter, .. } => {
            let gone = rows.filter(table::passes_fn(filter, cx));
            Ok(
                SourceModel {
                    rows: images::kept(rows, filter, cx),
                    affected: gone.len() as u64,
                    changes: deletions(gone, t),
                },
            )
        },
        CommandModel::ExpressionUpdate { .. } => Err(
            "Expression UPDATE must be materialized before foreign key validation"@,
        ),
        _ => Err("unsupported referential DML command"@),
    }
}

fn upsert_into(
    rows: Vec<Row>,
    t: &str,
    s: &TableSchema,
    r: &Row,
    columns: &Vec<String>,
    ignore: bool,
    cx: &Context,
) -> (res: DbResult<Source>)
    ensures
        error::outcome(res) == upsert_source(
            rows.deep_view(),
            t@,
            s@,
            r@,
            columns.deep_view(),
            ignore,
            cx@,
        ),
{
    let mut rows = rows;
    let ghost before = rows.deep_view();
    let incoming = match values::materialize_row(r.clone(), s, &cx.moment) {
        Err(e) => {
            return Err(e);
        },
        Ok(full) => full,
    };
    let mut changes: Vec<Change> = Vec::new();
    assert(changes.deep_view() =~= Seq::empty());
    match dmlcheck::find_conflicting(&rows, &incoming, s) {
        None => {
            rows.push(incoming);
            assert(rows.deep_view() =~= before.push(incoming@));
            Ok(Source { rows: rows, affected: 1, changes: changes })
        },
        Some(i) => {
            if ignore {
                return Ok(Source { rows: rows, affected: 0, changes: changes });
            }
            let old_row = rows[i].clone();
            let mut updated = rows[i].clone();
            images::take_columns(&mut updated, &incoming, columns);
            match values::materialize_row(updated, s, &cx.moment) {
                Err(e) => Err(e),
                Ok(after) => {
                    if after == old_row {
                        return Ok(Source { rows: rows, affected: 0, changes: changes });
                    }
                    let copy = after.clone();
                    let ghost model = after@;
                    rows.set(i, after);
                    assert(rows.deep_view() =~= before.update(i as int, model));
                    changes.push(
                        Change { table: text::copy_text(t), before: old_row, after: Some(copy) },
                    );
                    assert(changes.deep_view() =~= seq![
                        ChangeModel { table: t@, before: before[i as int], after: Some(model) },
                    ]);
                    Ok(Source { rows: rows, affected: 2, changes: changes })
                },
            }
        },
    }
}

#[verifier::loop_isolation(false)]
fn update_in(
    rows: &Vec<Row>,
    t: &str,
    s: &TableSchema,
    filter: &Option<RowPredicate>,
    sets: &Vec<(String, Option<Vec<u8>>)>,
    cx: &Context,
) -> (res: DbResult<Source>)
    ensures
        error::outcome(res) == update_source(
            rows.deep_view(),
            t@,
            s@,
            filter.deep_view(),
            sets.deep_view(),
            cx@,
            0,
            SourceModel { rows: Seq::empty(), affected: 0, changes: Seq::empty() },
        ),
{
    let ghost all = rows.deep_view();
    let mut done = Source { rows: Vec::new(), affected: 0, changes: Vec::new() };
    assert(done.rows.deep_view() =~= Seq::empty());
    assert(done.changes.deep_view() =~= Seq::empty());
    let ghost whole = update_source(
        all,
        t@,
        s@,
        filter.deep_view(),
        sets.deep_view(),
        cx@,
        0,
        done@,
    );
    let mut i: usize = 0;
    while i < rows.len()
        invariant
            i <= rows@.len(),
            all == rows.deep_view(),
            update_source(
                all,
                t@,
                s@,
                filter.deep_view(),
                sets.deep_view(),
                cx@,
                i as int,
                done@,
            ) == whole,
        decreases rows@.len() - i,
    {
        assert(all[i as int] == rows@[i as int]@);
        let ghost before = done@;
        let mut r = rows[i].clone();
        if predicate::row_matches(&rows[i], filter, cx) {
            images::apply_sets(&mut r, sets);
            match values::materialize_row(r, s, &cx.moment) {
                Err(e) => {
                    return Err(e);
                },
                Ok(after) => {
                    let copy = after.clone();
                    let old_row = rows[i].clone();
                    done.rows.push(after);
                    assert(done.rows.deep_view() =~= before.rows.push(after@));
                    done.affected = done.affected.saturating_add(1);
                    let change = Change {
                        table: text::copy_text(t),
                        before: old_row,
                        after: Some(copy),
                    };
                    let ghost model = change@;
                    done.changes.push(change);
                    assert(done.changes.deep_view() =~= before.changes.push(model));
                },
            }
        } else {
            done.rows.push(r);
            assert(done.rows.deep_view() =~= before.rows.push(r@));
        }
        i += 1;
    }
    Ok(done)
}

fn row_among(rows: &Vec<Row>, r: &Row) -> (res: bool)
    ensures
        res == rows.deep_view().contains(r@),
{
    let mut i: usize = 0;
    while i < rows.len()
        invariant
            i <= rows@.len(),
            forall|j: int| 0 <= j < i ==> rows.deep_view()[j] != r@,
        decreases rows@.len() - i,
    {
        assert(rows.deep_view()[i as int] == rows@[i as int]@);
        if rows[i] == *r {
            return true;
        }
        i += 1;
    }
    false
}

fn absent_rows(old_rows: &Vec<Row>, rows: &Vec<Row>) -> (r: Vec<Row>)
    ensures
        r.deep_view() == old_rows.deep_view().filter(absent_fn(rows.deep_view())),
{
    let ghost all = old_rows.deep_view();
    let ghost p = absent_fn(rows.deep_view());
    let mut out: Vec<Row> = Vec::new();
    let mut i: usize = 0;
    assert(all.take(0).filter(p) =~= Seq::empty()) by {
        reveal(Seq::filter);
    }
    assert(out.deep_view() =~= Seq::empty());
    while i < old_rows.len()
        invariant
            i <= old_rows@.len(),
            all == old_rows.deep_view(),
            p == absent_fn(rows.deep_view()),
            out.deep_view() == all.take(i as int).filter(p),
        decreases old_rows@.len() - i,
    {
        proof {
            seqs::filter_step(all, i as int, p);
            assert(all[i as int] == old_rows@[i as int]@);
        }
        let ghost before = out.deep_view();
        if !row_among(rows, &old_rows[i]) {
            let copy = old_rows[i].clone();
            out.push(copy);
            assert(out.deep_view() =~= before.push(all[i as int]));
        }
        i += 1;
    }
    assert(all.take(i as int) =~= all);
    out
}

fn deleted_changes(rows: &Vec<Row>, t: &str) -> (r: Vec<Change>)
    ensures
        r.deep_view() == deletions(rows.deep_view(), t@),
{
    let ghost target = deletions(rows.deep_view(), t@);
    let mut out: Vec<Change> = Vec::new();
    let mut i: usize = 0;
    assert(out.deep_view() =~= target.take(0));
    while i < rows.len()
        invariant
            i <= rows@.len(),
            target == deletions(rows.deep_view(), t@),
            out.deep_view() == target.take(i as int),
        decreases rows@.len() - i,
    {
        let ghost before = out.deep_view();
        let change = Change { table: text::copy_text(t), before: rows[i].clone(), after: None };
        assert(change@ == target[i as int]);
        out.push(change);
        assert(out.deep_view() =~= before.push(target[i as int]));
        assert(target.take(i + 1) =~= target.take(i as int).push(target[i as int]));
        i += 1;
    }
    assert(target.take(i as int) =~= target);
    out
}

/// What a command does to the rows of its table.
pub fn apply_source(c: &WriteCommand, rows: Vec<Row>, t: &str, s: &TableSchema, cx: &Context) -> (r:
    DbResult<Source>)
    ensures
        error::outcome(r) == source_step(c@, rows.deep_view(), t@, s@, cx@),
{
    proof {
        reveal(source_step);
    }
    match c {
        WriteCommand::Insert { database: _, table: _, row } => match values::materialize_row(
            row.clone(),
            s,
            &cx.moment,
        ) {
            Err(e) => Err(e),
            Ok(full) => {
                let mut rows = rows;
                let ghost before = rows.deep_view();
                rows.push(full);
                assert(rows.deep_view() =~= before.push(full@));
                let changes: Vec<Change> = Vec::new();
                assert(changes.deep_view() =~= Seq::empty());
                Ok(Source { rows: rows, affected: 1, changes: changes })
            },
        },
        WriteCommand::Upsert { database: _, table: _, row, update_columns, ignore } => upsert_into(
            rows,
            t,
            s,
            row,
            update_columns,
            *ignore,
            cx,
        ),
        WriteCommand::Update { database: _, table: _, filter, assignments } => update_in(
            &rows,
            t,
            s,
            filter,
            assignments,
            cx,
        ),
        WriteCommand::ReplaceRows { database: _, table: _, rows: given, affected_rows } => {
            match images::materialize_rows(given, s, &cx.moment) {
                Err(e) => Err(e),
                Ok(full) => {
                    let gone = absent_rows(&rows, &full);
                    let changes = deleted_changes(&gone, t);
                    Ok(Source { rows: full, affected: *affected_rows, changes: changes })
                },
            }
        },
        WriteCommand::Delete { database: _, table: _, filter } => {
            let gone = table::filter_rows(&rows, filter, None, cx);
            let left = images::delete_image(&rows, filter, cx);
            let changes = deleted_changes(&gone, t);
            assert(gone.deep_view().len() == gone@.len());
            Ok(Source { rows: left, affected: gone.len() as u64, changes: changes })
        },
        WriteCommand::ExpressionUpdate { database: _, table: _, filter: _, assignments: _ } => Err(
            DbError::of("Expression UPDATE must be materialized before foreign key validation"),
        ),
        _ => Err(DbError::of("unsupported referential DML command")),
    }
}

/// What an update leaves of the rows from the `at`-th on where a row cannot be stored: the rows
/// before that one are updated, it holds what was assigned, and those behind it are as they were.
pub open spec fn update_left(
    rows: Seq<RowModel>,
    s: SchemaModel,
    filter: Option<PredicateModel>,
    sets: SetModel,
    cx: ContextModel,
    at: int,
    done: Seq<RowModel>,
) -> Seq<RowModel>
    decreases rows.len() - at,
{
    if at < 0 || at >= rows.len() {
        done
    } else if !predicate::passes(filter, rows[at], cx) {
        update_left(rows, s, filter, sets, cx, at + 1, done.push(rows[at]))
    } else {
        let assigned = images::set_from(rows[at], sets, 0);
        match values::materialized(assigned, s, cx.moment) {
            Err(_) => done.push(assigned) + rows.skip(at + 1),
            Ok(after) => update_left(rows, s, filter, sets, cx, at + 1, done.push(after)),
        }
    }
}

/// The rows of its table that a command leaves where it fails.
pub open spec fn source_left(
    c: CommandModel,
    rows: Seq<RowModel>,
    s: SchemaModel,
    cx: ContextModel,
) -> Seq<RowModel> {
    match c {
        CommandModel::Update { filter, assignments, .. } => update_left(
            rows,
            s,
            filter,
            assignments,
            cx,
            0,
            Seq::empty(),
        ),
        CommandModel::ReplaceRows { .. } => Seq::empty(),
        _ => rows,
    }
}

#[verifier::loop_isolation(false)]
fn leave_updated(
    rows: &Vec<Row>,
    s: &TableSchema,
    filter: &Option<RowPredicate>,
    sets: &Vec<(String, Option<Vec<u8>>)>,
    cx: &Context,
) -> (res: Vec<Row>)
    ensures
        res.deep_view() == update_left(
            rows.deep_view(),
            s@,
            filter.deep_view(),
            sets.deep_view(),
            cx@,
            0,
            Seq::empty(),
        ),
{
    let ghost all = rows.deep_view();
    let ghost f = filter.deep_view();
    let ghost list = sets.deep_view();
    let ghost whole = update_left(all, s@, f, list, cx@, 0, Seq::empty());
    let mut done: Vec<Row> = Vec::new();
    assert(done.deep_view() =~= Seq::empty());
    let mut i: usize = 0;
    while i < rows.len()
        invariant
            i <= rows@.len(),
            update_left(all, s@, f, list, cx@, i as int, done.deep_view()) == whole,
        decreases rows@.len() - i,
    {
        assert(all[i as int] == rows@[i as int]@);
        let ghost before = done.deep_view();
        let mut r = rows[i].clone();
        if predicate::row_matches(&rows[i], filter, cx) {
            images::apply_sets(&mut r, sets);
            let assigned = r.clone();
            match values::materialize_row(r, s, &cx.moment) {
                Err(_) => {
                    done.push(assigned);
                    assert(done.deep_view() =~= before.push(assigned@));
                    let ghost upper = done.deep_view();
                    let mut k: usize = i + 1;
                    assert(upper + all.subrange(i + 1, k as int) =~= upper);
                    while k < rows.len()
                        invariant
                            i < k <= rows@.len(),
                            done.deep_view() == upper + all.subrange(i + 1, k as int),
                        decreases rows@.len() - k,
                    {
                        let ghost so_far = done.deep_view();
                        let copy = rows[k].clone();
                        done.push(copy);
                        assert(all[k as int] == rows@[k as int]@);
                        assert(done.deep_view() =~= so_far.push(all[k as int]));
                        assert(done.deep_view() =~= upper + all.subrange(i + 1, k + 1));
                        k += 1;
                    }
                    assert(all.subrange(i + 1, k as int) =~= all.skip(i + 1));
                    return done;
                },
                Ok(after) => {
                    done.push(after);
                    assert(done.deep_view() =~= before.push(after@));
                },
            }
        } else {
            done.push(r);
            assert(done.deep_view() =~= before.push(r@));
        }
        i += 1;
    }
    done
}

fn leave_rows(c: &WriteCommand, rows: &Vec<Row>, s: &TableSchema, cx: &Context) -> (r: Vec<Row>)
    ensures
        r.deep_view() == source_left(c@, rows.deep_view(), s@, cx@),
{
    match c {
        WriteCommand::Update { database: _, table: _, filter, assignments } => leave_updated(
            rows,
            s,
            filter,
            assignments,
            cx,
        ),
        WriteCommand::ReplaceRows { database: _, table: _, rows: _, affected_rows: _ } => {
            let none: Vec<Row> = Vec::new();
            assert(none.deep_view() =~= Seq::empty());
            none
        },
        _ => commands::copy_rows(rows),
    }
}

/// The related tables as a command that fails leaves them.
pub open spec fn left_related(
    c: CommandModel,
    schemas: TablesModel,
    related: RelatedModel,
    cx: ContextModel,
) -> RelatedModel {
    match commands::rows_target(c) {
        None => related,
        Some((_, t)) => match assoc::lookup(schemas, t) {
            None => related,
            Some(s) => match assoc::lookup(related, t) {
                None => related,
                Some(rows) => assoc::with_entry(related, t, source_left(c, rows, s, cx)),
            },
        },
    }
}

/// What a command does to the rows of the related tables.
pub open spec fn sourced(c: CommandModel, schemas: TablesModel, related: RelatedModel, cx: ContextModel) -> Result<
    (RelatedModel, u64, Seq<ChangeModel>),
    Seq<char>,
> {
    match commands::rows_target(c) {
        None => Err("referential preparation requires DML"@),
        Some((_, t)) => match assoc::lookup(schemas, t) {
            None => Err(database::no_table(t)),
            Some(s) => match assoc::lookup(related, t) {
                None => Err("missing referential row image for '"@ + t + "'"@),
                Some(rows) => match source_step(c, rows, t, s, cx) {
                    Err(e) => Err(e),
                    Ok(out) => Ok(
                        (assoc::with_entry(related, t, out.rows), out.affected, out.changes),
                    ),
                },
            },
        },
    }
}

pub fn apply_referential_source_command(
    c: &WriteCommand,
    schemas: &Vec<(String, TableSchema)>,
    related: &mut Vec<(String, Vec<Row>)>,
    cx: &Context,
) -> (r: DbResult<(u64, Vec<Change>)>)
    ensures
        match r {
            Ok(out) => sourced(c@, schemas.deep_view(), old(related).deep_view(), cx@) == Ok::<
                (RelatedModel, u64, Seq<ChangeModel>),
                Seq<char>,
            >((final(related).deep_view(), out.0, out.1.deep_view())),
            Err(e) => sourced(c@, schemas.deep_view(), old(related).deep_view(), cx@) == Err::<
                (RelatedModel, u64, Seq<ChangeModel>),
                Seq<char>,
            >(e.message@) && final(related).deep_view() == left_related(
                c@,
                schemas.deep_view(),
                old(related).deep_view(),
                cx@,
            ),
        },
{
    let t = match commands::command_table(c) {
        None => {
            return Err(DbError::of("referential preparation requires DML"));
        },
        Some(target) => target.1,
    };
    let i = match assoc::find_entry(schemas, t.as_str()) {
        None => {
            return Err(database::no_table_error(t.as_str()));
        },
        Some(i) => i,
    };
    let k = match assoc::find_entry(related, t.as_str()) {
        None => {
            return Err(
                DbError::new(
                    error::cat3("missing referential row image for '", t.as_str(), "'"),
                ),
            );
        },
        Some(k) => k,
    };
    assert(schemas.deep_view()[i as int].1 == schemas@[i as int].1@);
    assert(related.deep_view()[k as int].1 == related@[k as int].1.deep_view());
    let rows = commands::copy_rows(&related[k].1);
    match apply_source(c, rows, t.as_str(), &schemas[i].1, cx) {
        Err(e) => {
            let left = leave_rows(c, &related[k].1, &schemas[i].1, cx);
            assoc::set_entry(related, t.as_str(), left);
            Err(e)
        },
        Ok(out) => {
            assoc::set_entry(related, t.as_str(), out.rows);
            Ok((out.affected, out.changes))
        },
    }
}

// ---------------------------------------------------------------------------------------------
// What follows from changed rows
// ---------------------------------------------------------------------------------------------
/// A row with the key's columns, from the `at`-th on, set to a key.
pub open spec fn keyed_from(
    r: RowModel,
    columns: Seq<Seq<char>>,
    key: Seq<Seq<u8>>,
    at: int,
) -> RowModel
    decreases columns.len() - at,
{
    if at < 0 || at >= columns.len() || at >= key.len() {
        r
    } else {
        keyed_from(r.with(columns[at], key[at]), columns, key, at + 1)
    }
}

fn set_key(r: &mut Row, columns: &Vec<String>, key: &Vec<Vec<u8>>)
    ensures
        final(r)@ == keyed_from(old(r)@, columns.deep_view(), key.deep_view(), 0),
{
    let ghost whole = keyed_from(r@, columns.deep_view(), key.deep_view(), 0);
    let mut i: usize = 0;
    while i < columns.len() && i < key.len()
        invariant
            i <= columns@.len(),
            i <= key@.len(),
            keyed_from(r@, columns.deep_view(), key.deep_view(), i as int) == whole,
        decreases columns@.len() - i,
    {
        proof {
            crate::row::bytes_model(key@[i as int]);
            assert(columns.deep_view()[i as int] == columns@[i as int]@);
            assert(key.deep_view()[i as int] == key@[i as int]@);
        }
        r.set(columns[i].as_str(), text::copy_bytes(key[i].as_slice()));
        i += 1;
    }
    assert(key.deep_view().len() == key@.len());
    assert(columns.deep_view().len() == columns@.len());
}

/// A row with the key's columns, from the `at`-th on, set to NULL.
pub open spec fn unkeyed_from(r: RowModel, columns: Seq<Seq<char>>, at: int) -> RowModel
    decreases columns.len() - at,
{
    if at < 0 || at >= columns.len() {
        r
    } else {
        unkeyed_from(r.with_null(columns[at]), columns, at + 1)
    }
}

fn clear_key(r: &mut Row, columns: &Vec<String>)
    ensures
        final(r)@ == unkeyed_from(old(r)@, columns.deep_view(), 0),
{
    let ghost whole = unkeyed_from(r@, columns.deep_view(), 0);
    let mut i: usize = 0;
    while i < columns.len()
        invariant
            i <= columns@.len(),
            unkeyed_from(r@, columns.deep_view(), i as int) == whole,
        decreases columns@.len() - i,
    {
        assert(columns.deep_view()[i as int] == columns@[i as int]@);
        r.set_null(columns[i].as_str());
        i += 1;
    }
}

/// What a parent's change means to a foreign key: its old key, its new key, the action that it
/// asks for, and whether the parent is still there.
pub struct EffectModel {
    pub old_key: Seq<Seq<u8>>,
    pub new_key: Option<Seq<Seq<u8>>>,
    pub action: ReferentialAction,
    pub kept: bool,
}

pub struct Effect {
    pub old_key: Option<Vec<Vec<u8>>>,
    pub new_key: Option<Vec<Vec<u8>>>,
    pub action: ReferentialAction,
    pub kept: bool,
}

/// The effect of a change on a foreign key; none where the key refers to another table, or the
/// parent's key is incomplete or stays as it was.
pub open spec fn effect_of(c: ChangeModel, k: ForeignKeyModel) -> Option<EffectModel> {
    if k.parent_table != c.table {
        None
    } else {
        match fkeys::row_key(c.before, k.parent_columns) {
            None => None,
            Some(old_key) => {
                let new_key = match c.after {
                    Some(r) => fkeys::row_key(r, k.parent_columns),
                    None => None,
                };
                if new_key == Some(old_key) {
                    None
                } else {
                    Some(
                        EffectModel {
                            old_key: old_key,
                            new_key: new_key,
                            action: if c.after is Some {
                                k.on_update
                            } else {
                                k.on_delete
                            },
                            kept: c.after is Some,
                        },
                    )
                }
            },
        }
    }
}

pub open spec fn effect_model(e: Effect) -> EffectModel {
    EffectModel {
        old_key: (e.old_key->0).deep_view(),
        new_key: fkeys::byte_lists(e.new_key),
        action: e.action,
        kept: e.kept,
    }
}

fn find_effect(c: &Change, k: &ForeignKeySpec) -> (r: Option<Effect>)
    ensures
        r is Some == effect_of(c@, k@) is Some,
        r matches Some(e) ==> e.old_key is Some && effect_of(c@, k@) == Some(effect_model(e)),
{
    if !text::text_equal(k.parent_table.as_str(), c.table.as_str()) {
        return None;
    }
    let old_key = fkeys::foreign_key_row_key(&c.before, &k.parent_columns);
    if old_key.is_none() {
        return None;
    }
    let new_key = match &c.after {
        Some(r) => fkeys::foreign_key_row_key(r, &k.parent_columns),
        None => None,
    };
    if fkeys::same_keys(&new_key, &old_key) {
        return None;
    }
    let kept = c.after.is_some();
    Some(
        Effect {
            old_key: old_key,
            new_key: new_key,
            action: if kept {
                k.on_update
            } else {
                k.on_delete
            },
            kept: kept,
        },
    )
}

/// A child row after a change of its parent that leaves it there.
pub open spec fn child_after(
    r: RowModel,
    k: ForeignKeyModel,
    e: EffectModel,
    s: SchemaModel,
    cx: ContextModel,
) -> Result<RowModel, Seq<char>> {
    match e.action {
        ReferentialAction::Cascade => match e.new_key {
            None => Err("ON UPDATE CASCADE parent key cannot be null"@),
            Some(key) => values::materialized(
                keyed_from(r, k.child_columns, key, 0),
                s,
                cx.moment,
            ),
        },
        ReferentialAction::SetNull => values::materialized(
            unkeyed_from(r, k.child_columns, 0),
            s,
            cx.moment,
        ),
        ReferentialAction::Restrict => Ok(r),
    }
}

fn change_child(r: &Row, k: &ForeignKeySpec, e: &Effect, s: &TableSchema, cx: &Context) -> (res:
    DbResult<Row>)
    requires
        e.old_key is Some,
    ensures
        error::outcome(res) == child_after(r@, k@, effect_model(*e), s@, cx@),
{
    let mut next = r.clone();
    match e.action {
        ReferentialAction::Cascade => match &e.new_key {
            None => Err(DbError::of("ON UPDATE CASCADE parent key cannot be null")),
            Some(key) => {
                set_key(&mut next, &k.child_columns, key);
                values::materialize_row(next, s, &cx.moment)
            },
        },
        ReferentialAction::SetNull => {
            clear_key(&mut next, &k.child_columns);
            values::materialize_row(next, s, &cx.moment)
        },
        ReferentialAction::Restrict => Ok(next),
    }
}

/// The child rows from the `at`-th down to the first after a change of their parent, and the
/// changes that follow from it behind those that were pending.
pub open spec fn children_down(
    rows: Seq<RowModel>,
    at: int,
    k: ForeignKeyModel,
    e: EffectModel,
    s: SchemaModel,
    pending: Seq<ChangeModel>,
    cx: ContextModel,
) -> Result<(Seq<RowModel>, Seq<ChangeModel>), Seq<char>>
    decreases at + 1,
{
    if at < 0 || at >= rows.len() {
        Ok((rows, pending))
    } else if fkeys::row_key(rows[at], k.child_columns) != Some(e.old_key) {
        children_down(rows, at - 1, k, e, s, pending, cx)
    } else if e.action == ReferentialAction::Cascade && !e.kept {
        children_down(
            rows.remove(at),
            at - 1,
            k,
            e,
            s,
            pending.push(
                ChangeModel { table: k.child_table, before: rows[at], after: None },
            ),
            cx,
        )
    } else {
        match child_after(rows[at], k, e, s, cx) {
            Err(m) => Err(m),
            Ok(after) => children_down(
                rows.update(at, after),
                at - 1,
                k,
                e,
                s,
                pending.push(
                    ChangeModel { table: k.child_table, before: rows[at], after: Some(after) },
                ),
                cx,
            ),
        }
    }
}

#[verifier::loop_isolation(false)]
fn walk_children(
    rows: &mut Vec<Row>,
    k: &ForeignKeySpec,
    e: &Effect,
    s: &TableSchema,
    pending: &mut Vec<Change>,
    cx: &Context,
) -> (r: DbResult<()>)
    requires
        e.old_key is Some,
    ensures
        match r {
            Ok(_) => children_down(
                old(rows).deep_view(),
                old(rows)@.len() - 1,
                k@,
                effect_model(*e),
                s@,
                old(pending).deep_view(),
                cx@,
            ) == Ok::<(Seq<RowModel>, Seq<ChangeModel>), Seq<char>>(
                (final(rows).deep_view(), final(pending).deep_view()),
            ),
            Err(m) => children_down(
                old(rows).deep_view(),
                old(rows)@.len() - 1,
                k@,
                effect_model(*e),
                s@,
                old(pending).deep_view(),
                cx@,
            ) == Err::<(Seq<RowModel>, Seq<ChangeModel>), Seq<char>>(m.message@),
        },
{
    let ghost model = effect_model(*e);
    let ghost whole = children_down(
        rows.deep_view(),
        rows@.len() - 1,
        k@,
        model,
        s@,
        pending.deep_view(),
        cx@,
    );
    let mut at: usize = rows.len();
    while at > 0
        invariant
            at <= rows@.len(),
            children_down(
                rows.deep_view(),
                at - 1,
                k@,
                model,
                s@,
                pending.deep_view(),
                cx@,
            ) == whole,
        decreases at,
    {
        at -= 1;
        let ghost before = rows.deep_view();
        let ghost queued = pending.deep_view();
        assert(before[at as int] == rows@[at as int]@);
        let key = fkeys::foreign_key_row_key(&rows[at], &k.child_columns);
        if fkeys::same_keys(&key, &e.old_key) {
            let old_child = rows[at].clone();
            if e.action == ReferentialAction::Cascade && !e.kept {
                rows.remove(at);
                assert(rows.deep_view() =~= before.remove(at as int));
                let change = Change {
                    table: k.child_table.clone(),
                    before: old_child,
                    after: None,
                };
                let ghost m = change@;
                pending.push(change);
                assert(pending.deep_view() =~= queued.push(m));
            } else {
                match change_child(&rows[at], k, e, s, cx) {
                    Err(m) => {
                        return Err(m);
                    },
                    Ok(after) => {
                        let copy = after.clone();
                        let ghost new_model = after@;
                        rows.set(at, after);
                        assert(rows.deep_view() =~= before.update(at as int, new_model));
                        let change = Change {
                            table: k.child_table.clone(),
                            before: old_child,
                            after: Some(copy),
                        };
                        let ghost m = change@;
                        pending.push(change);
                        assert(pending.deep_view() =~= queued.push(m));
                    },
                }
            }
        }
    }
    Ok(())
}

/// What the changes so far have come to: the rows, which tables changed, and what is pending.
#[verifier::ext_equal]
pub struct CascadeModel {
    pub related: RelatedModel,
    pub changed: Seq<Seq<char>>,
    pub pending: Seq<ChangeModel>,
}

pub struct Cascade {
    pub related: Vec<(String, Vec<Row>)>,
    pub changed: Vec<String>,
    pub pending: Vec<Change>,
}

impl View for Cascade {
    type V = CascadeModel;

    open spec fn view(&self) -> CascadeModel {
        CascadeModel {
            related: self.related.deep_view(),
            changed: self.changed.deep_view(),
            pending: self.pending.deep_view(),
        }
    }
}

/// Whether a child row has a key.
pub open spec fn any_child(rows: Seq<RowModel>, k: ForeignKeyModel, key: Seq<Seq<u8>>) -> bool {
    altercheck::any_row_key(rows, k.child_columns, Some(key))
}

/// What one foreign key makes of a change.
#[verifier::opaque]
pub open spec fn key_step(
    state: CascadeModel,
    c: ChangeModel,
    k: ForeignKeyModel,
    schemas: TablesModel,
    cx: ContextModel,
) -> Result<CascadeModel, Seq<char>> {
    match effect_of(c, k) {
        None => Ok(state),
        Some(e) => match assoc::lookup(schemas, k.child_table) {
            None => Err("foreign key child table is missing"@),
            Some(s) => match assoc::lookup(state.related, k.child_table) {
                None => Err("foreign key child row image is missing"@),
                Some(rows) => if !any_child(rows, k, e.old_key) {
                    Ok(state)
                } else if e.action == ReferentialAction::Restrict {
                    Err(
                        "Cannot delete or update a parent row: a foreign key constraint fails ('"@
                            + k.name + "')"@,
                    )
                } else {
                    match children_down(
                        rows,
                        rows.len() - 1,
                        k,
                        e,
                        s,
                        state.pending,
                        cx,
                    ) {
                        Err(m) => Err(m),
                        Ok((after, pending)) => Ok(
                            CascadeModel {
                                related: assoc::with_entry(state.related, k.child_table, after),
                                changed: assoc::with_name(state.changed, k.child_table),
                                pending: pending,
                            },
                        ),
                    }
                },
            },
        },
    }
}

impl Cascade {
    fn follow_key(
        &mut self,
        c: &Change,
        k: &ForeignKeySpec,
        schemas: &Vec<(String, TableSchema)>,
        cx: &Context,
    ) -> (r: DbResult<()>)
        ensures
            match r {
                Ok(_) => key_step(old(self)@, c@, k@, schemas.deep_view(), cx@) == Ok::<
                    CascadeModel,
                    Seq<char>,
                >(final(self)@),
                Err(m) => key_step(old(self)@, c@, k@, schemas.deep_view(), cx@) == Err::<
                    CascadeModel,
                    Seq<char>,
                >(m.message@),
            },
    {
        proof {
            reveal(key_step);
        }
        let e = match find_effect(c, k) {
            None => {
                return Ok(());
            },
            Some(e) => e,
        };
        let i = match assoc::find_entry(schemas, k.child_table.as_str()) {
            None => {
                return Err(DbError::of("foreign key child table is missing"));
            },
            Some(i) => i,
        };
        let p = match assoc::find_entry(&self.related, k.child_table.as_str()) {
            None => {
                return Err(DbError::of("foreign key child row image is missing"));
            },
            Some(p) => p,
        };
        assert(schemas.deep_view()[i as int].1 == schemas@[i as int].1@);
        assert(self.related.deep_view()[p as int].1 == self.related@[p as int].1.deep_view());
        let mut rows = commands::copy_rows(&self.related[p].1);
        assert(rows.deep_view().len() == rows@.len());
        assert(fkeys::byte_lists(e.old_key) == Some(effect_model(e).old_key));
        if !altercheck::has_row_key(&rows, &k.child_columns, &e.old_key) {
            return Ok(());
        }
        if e.action == ReferentialAction::Restrict {
            return Err(
                DbError::new(
                    error::cat3(
                        "Cannot delete or update a parent row: a foreign key constraint fails ('",
                        k.name.as_str(),
                        "')",
                    ),
                ),
            );
        }
        match walk_children(&mut rows, k, &e, &schemas[i].1, &mut self.pending, cx) {
            Err(m) => Err(m),
            Ok(_) => {
                assoc::set_entry(&mut self.related, k.child_table.as_str(), rows);
                assoc::add_name(&mut self.changed, k.child_table.as_str());
                Ok(())
            },
        }
    }
}

/// What the foreign keys from the `at`-th on make of a change.
pub open spec fn keys_from(
    state: CascadeModel,
    c: ChangeModel,
    keys: Seq<ForeignKeyModel>,
    schemas: TablesModel,
    cx: ContextModel,
    at: int,
) -> Result<CascadeModel, Seq<char>>
    decreases keys.len() - at,
{
    if at < 0 || at >= keys.len() {
        Ok(state)
    } else {
        match key_step(state, c, keys[at], schemas, cx) {
            Err(m) => Err(m),
            Ok(next) => keys_from(next, c, keys, schemas, cx, at + 1),
        }
    }
}

/// The pending changes worked off one after the other, each with what follows from it.
pub open spec fn cascaded(
    state: CascadeModel,
    keys: Seq<ForeignKeyModel>,
    schemas: TablesModel,
    cx: ContextModel,
    processed: int,
) -> Result<CascadeModel, Seq<char>>
    decreases CASCADE_LIMIT - processed,
{
    if state.pending.len() == 0 {
        Ok(state)
    } else if processed >= CASCADE_LIMIT {
        Err("foreign key cascade exceeded safe row limit"@)
    } else {
        let rest = CascadeModel { pending: state.pending.drop_first(), ..state };
        match keys_from(rest, state.pending[0], keys, schemas, cx, 0) {
            Err(m) => Err(m),
            Ok(next) => cascaded(next, keys, schemas, cx, processed + 1),
        }
    }
}

#[verifier::loop_isolation(false)]
fn follow_keys(
    state: &mut Cascade,
    c: &Change,
    keys: &Vec<ForeignKeySpec>,
    schemas: &Vec<(String, TableSchema)>,
    cx: &Context,
) -> (r: DbResult<()>)
    ensures
        match r {
            Ok(_) => keys_from(
                old(state)@,
                c@,
                keys.deep_view(),
                schemas.deep_view(),
                cx@,
                0,
            ) == Ok::<CascadeModel, Seq<char>>(final(state)@),
            Err(m) => keys_from(
                old(state)@,
                c@,
                keys.deep_view(),
                schemas.deep_view(),
                cx@,
                0,
            ) == Err::<CascadeModel, Seq<char>>(m.message@),
        },
{
    let ghost models = keys.deep_view();
    let ghost whole = keys_from(state@, c@, models, schemas.deep_view(), cx@, 0);
    let mut i: usize = 0;
    while i < keys.len()
        invariant
            i <= keys@.len(),
            models == keys.deep_view(),
            keys_from(state@, c@, models, schemas.deep_view(), cx@, i as int) == whole,
        decreases keys@.len() - i,
    {
        assert(models[i as int] == keys@[i as int]@);
        match state.follow_key(c, &keys[i], schemas, cx) {
            Err(m) => {
                return Err(m);
            },
            Ok(_) => {},
        }
        i += 1;
    }
    Ok(())
}

/// Works off changes of rows with what follows from them.
#[verifier::loop_isolation(false)]
pub(crate) fn apply_referential_actions(
    state: &mut Cascade,
    keys: &Vec<ForeignKeySpec>,
    schemas: &Vec<(String, TableSchema)>,
    cx: &Context,
) -> (r: DbResult<()>)
    ensures
        match r {
            Ok(_) => cascaded(old(state)@, keys.deep_view(), schemas.deep_view(), cx@, 0) == Ok::<
                CascadeModel,
                Seq<char>,
            >(final(state)@),
            Err(m) => cascaded(old(state)@, keys.deep_view(), schemas.deep_view(), cx@, 0) == Err::<
                CascadeModel,
                Seq<char>,
            >(m.message@),
        },
{
    let ghost whole = cascaded(state@, keys.deep_view(), schemas.deep_view(), cx@, 0);
    let mut processed: u64 = 0;
    while state.pending.len() > 0
        invariant
            processed <= CASCADE_LIMIT,
            cascaded(
                state@,
                keys.deep_view(),
                schemas.deep_view(),
                cx@,
                processed as int,
            ) == whole,
        decreases CASCADE_LIMIT + 1 - processed,
    {
        assert(state@.pending.len() == state.pending@.len());
        if processed >= CASCADE_LIMIT {
            return Err(DbError::of("foreign key cascade exceeded safe row limit"));
        }
        let ghost before = state@;
        let c = state.pending.remove(0);
        assert(state@.pending =~= before.pending.drop_first());
        assert(c@ == before.pending[0]);
        match follow_keys(state, &c, keys, schemas, cx) {
            Err(m) => {
                return Err(m);
            },
            Ok(_) => {},
        }
        processed += 1;
    }
    assert(state@.pending.len() == state.pending@.len());
    Ok(())
}

// ---------------------------------------------------------------------------------------------
// Whether every child has its parent
// ---------------------------------------------------------------------------------------------
/// Whether a child row lacked its parent before the statement already.
pub open spec fn grandfathered(child: RowModel, k: ForeignKeyModel, initial: RelatedModel) -> bool {
    (assoc::lookup(initial, k.child_table) matches Some(rows) && rows.contains(child)) && (
    assoc::lookup(initial, k.parent_table) matches Some(parents) && !altercheck::any_row_key(
        parents,
        k.parent_columns,
        fkeys::row_key(child, k.child_columns),
    ))
}

/// Whether a child row has no parent, and did not lack it before.
pub open spec fn parentless(
    child: RowModel,
    parents: Seq<RowModel>,
    k: ForeignKeyModel,
    initial: RelatedModel,
) -> bool {
    fkeys::row_key(child, k.child_columns) is Some && !altercheck::any_row_key(
        parents,
        k.parent_columns,
        fkeys::row_key(child, k.child_columns),
    ) && !grandfathered(child, k, initial)
}

pub open spec fn any_parentless(
    children: Seq<RowModel>,
    parents: Seq<RowModel>,
    k: ForeignKeyModel,
    initial: RelatedModel,
) -> bool {
    exists|i: int|
        0 <= i < children.len() && parentless(#[trigger] children[i], parents, k, initial)
}

/// Why rows do not meet the foreign keys from the `at`-th on.
pub open spec fn unmet_from(
    keys: Seq<ForeignKeyModel>,
    related: RelatedModel,
    initial: RelatedModel,
    at: int,
) -> Option<Seq<char>>
    decreases keys.len() - at,
{
    if at < 0 || at >= keys.len() {
        None
    } else {
        match (
            assoc::lookup(related, keys[at].child_table),
            assoc::lookup(related, keys[at].parent_table),
        ) {
            (None, _) => Some("foreign key child row image is missing"@),
            (_, None) => Some("foreign key parent row image is missing"@),
            (Some(children), Some(parents)) => if any_parentless(
                children,
                parents,
                keys[at],
                initial,
            ) {
                Some(
                    "Cannot add or update a child row: a foreign key constraint fails ('"@
                        + keys[at].name + "')"@,
                )
            } else {
                unmet_from(keys, related, initial, at + 1)
            },
        }
    }
}

fn find_rows<'a>(related: &'a Vec<(String, Vec<Row>)>, name: &str) -> (r: Option<&'a Vec<Row>>)
    ensures
        r is Some == assoc::lookup(related.deep_view(), name@) is Some,
        r matches Some(rows) ==> assoc::lookup(related.deep_view(), name@) == Some(
            rows.deep_view(),
        ),
{
    match assoc::find_entry(related, name) {
        None => None,
        Some(i) => {
            assert(related.deep_view()[i as int].1 == related@[i as int].1.deep_view());
            Some(&related[i].1)
        },
    }
}

fn is_parentless(
    child: &Row,
    parents: &Vec<Row>,
    k: &ForeignKeySpec,
    initial: &Vec<(String, Vec<Row>)>,
) -> (r: bool)
    ensures
        r == parentless(child@, parents.deep_view(), k@, initial.deep_view()),
{
    let key = fkeys::foreign_key_row_key(child, &k.child_columns);
    if key.is_none() {
        return false;
    }
    if altercheck::has_row_key(parents, &k.parent_columns, &key) {
        return false;
    }
    let known = match find_rows(initial, k.child_table.as_str()) {
        None => false,
        Some(rows) => row_among(rows, child),
    };
    let lacked = match find_rows(initial, k.parent_table.as_str()) {
        None => false,
        Some(rows) => !altercheck::has_row_key(rows, &k.parent_columns, &key),
    };
    !(known && lacked)
}

pub fn validate_foreign_key_images(
    keys: &Vec<ForeignKeySpec>,
    related: &Vec<(String, Vec<Row>)>,
    initial: &Vec<(String, Vec<Row>)>,
) -> (r: DbResult<()>)
    ensures
        match r {
            Ok(_) => unmet_from(
                keys.deep_view(),
                related.deep_view(),
                initial.deep_view(),
                0,
            ) is None,
            Err(e) => unmet_from(
                keys.deep_view(),
                related.deep_view(),
                initial.deep_view(),
                0,
            ) == Some(e.message@),
        },
{
    let ghost models = keys.deep_view();
    let ghost now = related.deep_view();
    let ghost start = initial.deep_view();
    let mut i: usize = 0;
    while i < keys.len()
        invariant
            i <= keys@.len(),
            models == keys.deep_view(),
            now == related.deep_view(),
            start == initial.deep_view(),
            unmet_from(models, now, start, i as int) == unmet_from(models, now, start, 0),
        decreases keys@.len() - i,
    {
        let k = &keys[i];
        assert(models[i as int] == k@);
        let children = match find_rows(related, k.child_table.as_str()) {
            None => {
                return Err(DbError::of("foreign key child row image is missing"));
            },
            Some(rows) => rows,
        };
        let parents = match find_rows(related, k.parent_table.as_str()) {
            None => {
                return Err(DbError::of("foreign key parent row image is missing"));
            },
            Some(rows) => rows,
        };
        let ghost all = children.deep_view();
        let mut c: usize = 0;
        while c < children.len()
            invariant
                c <= children@.len(),
                i < keys@.len(),
                models == keys.deep_view(),
                now == related.deep_view(),
                start == initial.deep_view(),
                models[i as int] == k@,
                all == children.deep_view(),
                assoc::lookup(now, k@.child_table) == Some(all),
                assoc::lookup(now, k@.parent_table) == Some(parents.deep_view()),
                unmet_from(models, now, start, i as int) == unmet_from(models, now, start, 0),
                forall|j: int|
                    0 <= j < c ==> !parentless(#[trigger] all[j], parents.deep_view(), k@, start),
            decreases children@.len() - c,
        {
            assert(all[c as int] == children@[c as int]@);
            if is_parentless(&children[c], parents, k, initial) {
                return Err(
                    DbError::new(
                        error::cat3(
                            "Cannot add or update a child row: a foreign key constraint fails ('",
                            k.name.as_str(),
                            "')",
                        ),
                    ),
                );
            }
            c += 1;
        }
        i += 1;
    }
    Ok(())
}

/// Rows that meet the foreign keys have a parent for every child, but for those that lacked it
/// before.
pub proof fn met_keys_have_parents(
    keys: Seq<ForeignKeyModel>,
    related: RelatedModel,
    initial: RelatedModel,
    k: int,
    c: int,
)
    requires
        unmet_from(keys, related, initial, 0) is None,
        0 <= k < keys.len(),
        assoc::lookup(related, keys[k].child_table) is Some,
        0 <= c < (assoc::lookup(related, keys[k].child_table)->0).len(),
    ensures
        ({
            let child = (assoc::lookup(related, keys[k].child_table)->0)[c];
            let key = fkeys::row_key(child, keys[k].child_columns);
            key is Some ==> (assoc::lookup(related, keys[k].parent_table) matches Some(parents)
                && altercheck::any_row_key(parents, keys[k].parent_columns, key))
                || grandfathered(child, keys[k], initial)
        }),
{
    met_from(keys, related, initial, 0, k);
}

/// Rows that meet the foreign keys hold the tables of every key.
pub proof fn met_keys_lookups(
    keys: Seq<ForeignKeyModel>,
    related: RelatedModel,
    initial: RelatedModel,
    k: int,
)
    requires
        unmet_from(keys, related, initial, 0) is None,
        0 <= k < keys.len(),
    ensures
        assoc::lookup(related, keys[k].child_table) is Some,
        assoc::lookup(related, keys[k].parent_table) is Some,
{
    met_from(keys, related, initial, 0, k);
}

proof fn met_from(
    keys: Seq<ForeignKeyModel>,
    related: RelatedModel,
    initial: RelatedModel,
    at: int,
    k: int,
)
    requires
        0 <= at <= k < keys.len(),
        unmet_from(keys, related, initial, at) is None,
    ensures
        assoc::lookup(related, keys[k].child_table) matches Some(children) && (assoc::lookup(
            related,
            keys[k].parent_table,
        ) matches Some(parents) && !any_parentless(children, parents, keys[k], initial)),
    decreases k - at,
{
    if at < k {
        met_from(keys, related, initial, at + 1, k);
    }
}

} // verus!
