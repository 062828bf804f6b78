//! A database: its tables and its procedures.
use crate::alter;
use crate::alter::{AlterTableOperation, OperationModel};
use crate::altered;
use crate::assoc;
use crate::commands::SetModel;
use crate::error;
use crate::error::{DbError, DbResult};
use crate::images;
use crate::index;
use crate::num;
use crate::page::Page;
use crate::predicate::{Context, ContextModel, PredicateModel, RowPredicate};
use crate::row::{Row, RowModel};
use crate::rowpages;
use crate::rowpages::RowPageModel;
use crate::schema;
use crate::schema::{
    KeyModel, MetadataModel, Moment, MomentModel, ProcedureDefinition, ProcedureMetadata, ProcedureModel, SchemaModel, TableSchema,
};
use crate::search;
use crate::sqltext;
use crate::table;
use crate::table::{Table, TableModel};
use crate::text;
use crate::values;
use crate::values::{AssignmentModel, ExpressionAssignment};
use vstd::prelude::*;

verus! {

#[derive(Debug)]
pub struct Database {
    pub name: String,
    tables: Vec<(String, Table)>,
    pub procedures: Vec<(String, ProcedureDefinition)>,
    procedure_metadata: Vec<(String, ProcedureMetadata)>,
}

#[verifier::ext_equal]
pub struct DatabaseModel {
    pub name: Seq<char>,
    pub tables: Seq<(Seq<char>, TableModel)>,
    pub procedures: Seq<(Seq<char>, ProcedureModel)>,
    pub metadata: Seq<(Seq<char>, MetadataModel)>,
}

impl View for Database {
    type V = DatabaseModel;

    closed spec fn view(&self) -> DatabaseModel {
        DatabaseModel {
            name: self.name@,
            tables: self.tables.deep_view(),
            procedures: self.procedures.deep_view(),
            metadata: self.procedure_metadata.deep_view(),
        }
    }
}

impl DeepView for Database {
    type V = DatabaseModel;

    open spec fn deep_view(&self) -> DatabaseModel {
        self@
    }
}

pub open spec fn no_table(name: Seq<char>) -> Seq<char> {
    "Table '"@ + name + "' does not exist"@
}

pub fn no_table_error(name: &str) -> (r: DbError)
    ensures
        r.message@ == no_table(name@),
{
    DbError::new(error::cat3("Table '", name, "' does not exist"))
}

pub open spec fn table_of(db: DatabaseModel, name: Seq<char>) -> Option<TableModel> {
    assoc::lookup(db.tables, name)
}

/// A database with a table set.
pub open spec fn with_table(db: DatabaseModel, name: Seq<char>, t: TableModel) -> DatabaseModel {
    DatabaseModel { tables: assoc::with_entry(db.tables, name, t), ..db }
}

/// A database all of whose tables count on behind their rows.
pub open spec fn all_recounted(db: DatabaseModel) -> DatabaseModel {
    DatabaseModel {
        tables: db.tables.map_values(
            |e: (Seq<char>, TableModel)| (e.0, table::recounted(e.1)),
        ),
        ..db
    }
}

/// Whether a table's name can stand in the name of a file.
pub open spec fn unsafe_name(name: Seq<char>) -> bool {
    name.len() == 0 || name == "."@ || name == ".."@ || search::has_char(name, '/')
        || search::has_char(name, '\\')
}

pub open spec fn component(name: Seq<char>) -> Result<Seq<char>, Seq<char>> {
    if unsafe_name(name) {
        Err("Unsafe table name '"@ + name + "'"@)
    } else {
        Ok(num::hex(text::bytes_of(name), false))
    }
}

/// A table's name as part of a file's name.
pub fn rewrite_component(name: &str) -> (r: DbResult<String>)
    ensures
        error::outcome(r) == component(name@),
{
    let c = text::chars_of(name);
    if c.len() == 0 || text::text_equal(name, ".") || text::text_equal(name, "..")
        || search::chars_have(&c, '/') || search::chars_have(&c, '\\') {
        return Err(DbError::new(error::cat3("Unsafe table name '", name, "'")));
    }
    let bytes = text::text_bytes(name);
    Ok(num::hex_text(bytes.as_slice(), false))
}

// ---------------------------------------------------------------------------------------------
// What operations come to
// ---------------------------------------------------------------------------------------------
/// The table's pages rewritten with rows; all tables then count on behind their rows.
#[verifier::opaque]
pub open spec fn rows_replaced(
    db: DatabaseModel,
    name: Seq<char>,
    rows: Seq<RowModel>,
    m: MomentModel,
) -> Result<DatabaseModel, Seq<char>> {
    match table_of(db, name) {
        None => Err(no_table(name)),
        Some(t) => match table::replaced(t, rows, m) {
            Err(e) => Err(e),
            Ok(after) => if sqltext::is_memory(t.schema) {
                Ok(with_table(db, name, after))
            } else {
                match component(name) {
                    Err(e) => Err(e),
                    Ok(_) => Ok(all_recounted(with_table(db, name, after))),
                }
            },
        },
    }
}

#[verifier::opaque]
pub open spec fn rows_staged(
    db: DatabaseModel,
    name: Seq<char>,
    rows: Seq<RowModel>,
    m: MomentModel,
) -> Result<DatabaseModel, Seq<char>> {
    match table_of(db, name) {
        None => Err(no_table(name)),
        Some(t) => match table::staged(t, rows, m) {
            Err(e) => Err(e),
            Ok(after) => Ok(with_table(db, name, after)),
        },
    }
}

/// The table's rows written: staged where the rewrite is deferred.
#[verifier::opaque]
pub open spec fn rows_written(
    db: DatabaseModel,
    name: Seq<char>,
    rows: Seq<RowModel>,
    defer: bool,
    m: MomentModel,
) -> Result<DatabaseModel, Seq<char>> {
    if defer {
        rows_staged(db, name, rows, m)
    } else {
        rows_replaced(db, name, rows, m)
    }
}

#[verifier::opaque]
pub open spec fn rows_inserted(
    db: DatabaseModel,
    name: Seq<char>,
    rows: Seq<RowModel>,
    m: MomentModel,
) -> Result<(DatabaseModel, u64), Seq<char>> {
    if rows.len() == 0 {
        Ok((db, 0))
    } else {
        match table_of(db, name) {
            None => Err(no_table(name)),
            Some(t) => match table::inserted(t, rows, m) {
                Err(e) => Err(e),
                Ok((after, id)) => Ok((with_table(db, name, after), id)),
            },
        }
    }
}

/// The first constraint, from the `at`-th on, of which a row has a key that the table holds.
pub open spec fn taken_key(
    r: RowModel,
    rows: Seq<RowModel>,
    keys: Seq<KeyModel>,
    at: int,
) -> Option<Seq<char>>
    decreases keys.len() - at,
{
    if at < 0 || at >= keys.len() {
        None
    } else if values::key(r, keys[at].columns) matches Some(k) && index::key_set(
        rows,
        keys[at].columns,
    ).contains(k) {
        Some(keys[at].name)
    } else {
        taken_key(r, rows, keys, at + 1)
    }
}

#[verifier::opaque]
pub open spec fn row_inserted(db: DatabaseModel, name: Seq<char>, r: RowModel, m: MomentModel) -> Result<
    DatabaseModel,
    Seq<char>,
> {
    match table_of(db, name) {
        None => Err(no_table(name)),
        Some(t) => match values::materialized(r, t.schema, m) {
            Err(e) => Err(e),
            Ok(full) => match taken_key(full, t.rows(), schema::keys(t.schema), 0) {
                Some(key) => Err(images::duplicate_entry(key)),
                None => match rows_inserted(db, name, seq![full], m) {
                    Err(e) => Err(e),
                    Ok((after, _)) => Ok(after),
                },
            },
        },
    }
}

/// What a statement that changes rows comes to: the database and how many rows it changed.
#[verifier::opaque]
pub open spec fn rows_updated(
    db: DatabaseModel,
    name: Seq<char>,
    filter: Option<PredicateModel>,
    sets: SetModel,
    defer: bool,
    cx: ContextModel,
) -> Result<(DatabaseModel, u64), Seq<char>> {
    match table_of(db, name) {
        None => Err(no_table(name)),
        Some(t) => {
            let after = images::updated(t.rows(), filter, sets, cx);
            let affected = images::differing(t.rows(), after, t.rows().len() as int);
            if affected == 0 {
                Ok((db, 0))
            } else {
                match rows_written(db, name, after, defer, cx.moment) {
                    Err(e) => Err(e),
                    Ok(next) => Ok((next, affected as u64)),
                }
            }
        },
    }
}

#[verifier::opaque]
pub open spec fn rows_expressed(
    db: DatabaseModel,
    name: Seq<char>,
    filter: Option<PredicateModel>,
    list: Seq<AssignmentModel>,
    defer: bool,
    cx: ContextModel,
) -> Result<(DatabaseModel, u64), Seq<char>> {
    match table_of(db, name) {
        None => Err(no_table(name)),
        Some(t) => match images::expressed(t.rows(), t.schema, filter, list, cx) {
            Err(e) => Err(e),
            Ok((after, affected)) => if affected == 0 {
                Ok((db, 0))
            } else {
                match rows_written(db, name, after, defer, cx.moment) {
                    Err(e) => Err(e),
                    Ok(next) => Ok((next, affected as u64)),
                }
            },
        },
    }
}

/// A DELETE without a filter writes even where there was no row.
#[verifier::opaque]
pub open spec fn rows_deleted(
    db: DatabaseModel,
    name: Seq<char>,
    filter: Option<PredicateModel>,
    defer: bool,
    cx: ContextModel,
) -> Result<(DatabaseModel, u64), Seq<char>> {
    match table_of(db, name) {
        None => Err(no_table(name)),
        Some(t) => {
            let after = images::kept(t.rows(), filter, cx);
            let affected = t.rows().len() - after.len();
            if affected == 0 && filter is Some {
                Ok((db, 0))
            } else {
                match rows_written(db, name, after, defer, cx.moment) {
                    Err(e) => Err(e),
                    Ok(next) => Ok((next, affected as u64)),
                }
            }
        },
    }
}

/// A table that counts on from a number at least.
pub open spec fn counted_to(t: TableModel, next: Option<u64>) -> TableModel {
    match next {
        None => t,
        Some(n) => TableModel {
            next_id: Some(
                match t.next_id {
                    Some(current) => images::larger(current, n),
                    None => n,
                },
            ),
            ..t
        },
    }
}

pub open spec fn db_counted_to(db: DatabaseModel, name: Seq<char>, next: Option<u64>) -> DatabaseModel {
    match (next, table_of(db, name)) {
        (Some(_), Some(t)) => with_table(db, name, counted_to(t, next)),
        _ => db,
    }
}

#[verifier::opaque]
pub open spec fn rows_upserted(
    db: DatabaseModel,
    name: Seq<char>,
    incoming: Seq<RowModel>,
    columns: Seq<Seq<char>>,
    ignore: bool,
    defer: bool,
    m: MomentModel,
) -> Result<(DatabaseModel, u64), Seq<char>> {
    match table_of(db, name) {
        None => Err(no_table(name)),
        Some(t) => match images::numbered(t.schema, t.next_id, incoming) {
            Err(e) => Err(e),
            Ok(n) => match images::materialized_all(n.rows, t.schema, m) {
                Err(e) => Err(e),
                Ok(full) => match images::upserted(t.rows(), full, t.schema, columns, ignore) {
                    Err(e) => Err(e),
                    Ok(u) => {
                        let written = if u.changed {
                            rows_written(db, name, u.rows, defer, m)
                        } else {
                            match rows_inserted(db, name, u.inserts, m) {
                                Err(e) => Err(e),
                                Ok((after, _)) => Ok(after),
                            }
                        };
                        match written {
                            Err(e) => Err(e),
                            Ok(after) => Ok((db_counted_to(after, name, n.next), u.affected)),
                        }
                    },
                },
            },
        },
    }
}

/// Rows numbered and completed before they are logged. The numbers stay taken even where the rows
/// cannot be completed.
#[verifier::opaque]
pub open spec fn rows_reserved(
    db: DatabaseModel,
    name: Seq<char>,
    rows: Seq<RowModel>,
    m: MomentModel,
) -> (DatabaseModel, Result<(Seq<RowModel>, u64), Seq<char>>) {
    match table_of(db, name) {
        None => (db, Err(no_table(name))),
        Some(t) => match images::numbered(t.schema, t.next_id, rows) {
            Err(e) => (db, Err(e)),
            Ok(n) => (
                db_counted_to(db, name, n.next),
                match images::materialized_all(n.rows, t.schema, m) {
                    Err(e) => Err(e),
                    Ok(full) => Ok((full, n.last)),
                },
            ),
        },
    }
}

/// The staged rows of a table put on its pages.
#[verifier::opaque]
pub open spec fn checkpointed(db: DatabaseModel, name: Seq<char>, m: MomentModel) -> Result<
    DatabaseModel,
    Seq<char>,
> {
    match table_of(db, name) {
        None => Ok(db),
        Some(t) => match t.overlay {
            None => Ok(db),
            Some(rows) => if sqltext::is_memory(t.schema) {
                Ok(db)
            } else {
                match rows_replaced(db, name, rows, m) {
                    Err(e) => Err(e),
                    Ok(after) => match table_of(after, name) {
                        None => Ok(after),
                        Some(next) => Ok(
                            all_recounted(
                                with_table(after, name, TableModel { overlay: None, ..next }),
                            ),
                        ),
                    },
                }
            },
        },
    }
}

/// What ALTER TABLE comes to. Where the rows cannot follow, the schema has changed all the same.
#[verifier::opaque]
pub open spec fn table_altered(
    db: DatabaseModel,
    name: Seq<char>,
    op: OperationModel,
    m: MomentModel,
) -> (DatabaseModel, Result<(), Seq<char>>) {
    match table_of(db, name) {
        None => (db, Err(no_table(name))),
        Some(t) => match alter::altered(t.schema, op) {
            Err(e) => (db, Err(e)),
            Ok((next, _)) => {
                let fit = match altered::new_key(op) {
                    None => Ok(()),
                    Some((key, columns, nullable)) => match images::materialized_all(
                        t.rows(),
                        next,
                        m,
                    ) {
                        Err(e) => Err(e),
                        Ok(full) => altered::fits_key(full, columns, key, nullable),
                    },
                };
                match fit {
                    Err(e) => (db, Err(e)),
                    Ok(_) => {
                        let changed = with_table(db, name, TableModel { schema: next, ..t });
                        match altered::mutation_of(op) {
                            None => (all_recounted(changed), Ok(())),
                            Some(mutation) => match rows_replaced(
                                changed,
                                name,
                                altered::all_mutated(t.rows(), mutation),
                                m,
                            ) {
                                Err(e) => (changed, Err(e)),
                                Ok(after) => (all_recounted(after), Ok(())),
                            },
                        }
                    },
                }
            },
        },
    }
}

// ---------------------------------------------------------------------------------------------
// Tables
// ---------------------------------------------------------------------------------------------
impl Database {
    /// Whether the indexes of every table hold what its rows say.
    pub closed spec fn wf(self) -> bool {
        forall|i: int| 0 <= i < self.tables@.len() ==> (#[trigger] self.tables@[i]).1.wf()
    }

    pub fn new(name: &str) -> (r: Self)
        ensures
            r.wf(),
            r@ == (DatabaseModel {
                name: name@,
                tables: Seq::empty(),
                procedures: Seq::empty(),
                metadata: Seq::empty(),
            }),
    {
        let r = Database {
            name: text::copy_text(name),
            tables: Vec::new(),
            procedures: Vec::new(),
            procedure_metadata: Vec::new(),
        };
        assert(r@.tables =~= Seq::empty());
        assert(r@.procedures =~= Seq::empty());
        assert(r@.metadata =~= Seq::empty());
        r
    }

    fn find(&self, name: &str) -> (r: Option<usize>)
        ensures
            r is Some == table_of(self@, name@) is Some,
            r matches Some(i) ==> i < self.tables@.len() && assoc::entry(self@.tables, name@)
                == Some(i as int) && table_of(self@, name@) == Some(self.tables@[i as int].1@)
                && self.tables@[i as int].0@ == name@,
    {
        proof {
            assoc::entry_found(self@.tables, name@, 0);
        }
        assoc::find_entry(&self.tables, name)
    }

    /// Stages rows in place of those of a table.
    pub fn stage_rows(&mut self, name: &str, rows: &Vec<Row>, m: &Moment) -> (r: DbResult<()>)
        requires
            old(self).wf(),
        ensures
            final(self).wf(),
            match r {
                Ok(_) => rows_staged(old(self)@, name@, rows.deep_view(), m@) == Ok::<
                    DatabaseModel,
                    Seq<char>,
                >(final(self)@),
                Err(e) => rows_staged(old(self)@, name@, rows.deep_view(), m@) == Err::<
                    DatabaseModel,
                    Seq<char>,
                >(e.message@) && final(self)@ == old(self)@,
            },
    {
        proof {
            reveal(rows_staged);
        }
        let ghost before = *self;
        match self.find(name) {
            None => Err(no_table_error(name)),
            Some(i) => {
                let r = self.tables[i].1.stage_rows(rows, m);
                proof {
                    changed_at(before, *self, i as int);
                }
                r
            },
        }
    }

    /// Builds the indexes of every table anew.
    pub fn rebuild_all_indexes(&mut self)
        requires
            old(self).wf(),
        ensures
            final(self).wf(),
            final(self)@ == all_recounted(old(self)@),
    {
        let ghost before = self@;
        let ghost target = all_recounted(before).tables;
        let mut i: usize = 0;
        while i < self.tables.len()
            invariant
                i <= self.tables@.len() == before.tables.len(),
                target == all_recounted(before).tables,
                self.wf(),
                self.name@ == before.name,
                self.procedures.deep_view() == before.procedures,
                self.procedure_metadata.deep_view() == before.metadata,
                forall|j: int| 0 <= j < i ==> (#[trigger] self@.tables[j]) == target[j],
                forall|j: int|
                    i <= j < before.tables.len() ==> (#[trigger] self@.tables[j])
                        == before.tables[j],
            decreases self.tables@.len() - i,
        {
            let ghost prior = *self;
            assert(self@.tables[i as int] == before.tables[i as int]);
            self.tables[i].1.rebuild_indexes();
            proof {
                assert forall|j: int| 0 <= j < self.tables@.len() implies (#[trigger] self@.tables[j])
                    == (if j == i {
                    target[j]
                } else {
                    prior@.tables[j]
                }) by {
                    if j != i {
                        assert(self.tables@[j] == prior.tables@[j]);
                    } else {
                        assert(self@.tables[j].0 == prior@.tables[j].0);
                    }
                }
                assert forall|j: int| 0 <= j < self.tables@.len() implies (
                #[trigger] self.tables@[j]).1.wf() by {
                    if j != i {
                        assert(self.tables@[j] == prior.tables@[j]);
                    }
                }
            }
            i += 1;
        }
        assert(self@.tables =~= target);
    }

    /// Rewrites the pages of a table with rows.
    pub fn replace_rows(&mut self, name: &str, rows: &Vec<Row>, m: &Moment) -> (r: DbResult<()>)
        requires
            old(self).wf(),
        ensures
            final(self).wf(),
            match r {
                Ok(_) => rows_replaced(old(self)@, name@, rows.deep_view(), m@) == Ok::<
                    DatabaseModel,
                    Seq<char>,
                >(final(self)@),
                Err(e) => rows_replaced(old(self)@, name@, rows.deep_view(), m@) == Err::<
                    DatabaseModel,
                    Seq<char>,
                >(e.message@) && final(self)@ == old(self)@,
            },
    {
        proof {
            reveal(rows_replaced);
        }
        let ghost before = *self;
        match self.find(name) {
            None => Err(no_table_error(name)),
            Some(i) => {
                let memory = sqltext::is_memory_schema(self.tables[i].1.schema());
                let safe = rewrite_component(name);
                match safe {
                    Err(e) => {
                        if memory {
                            let r = self.tables[i].1.replace_rows(rows, m);
                            proof {
                                changed_at(before, *self, i as int);
                            }
                            return r;
                        }
                        match self.tables[i].1.check_replacement(rows, m) {
                            Err(first) => Err(first),
                            Ok(_) => Err(e),
                        }
                    },
                    Ok(_) => {
                        let r = self.tables[i].1.replace_rows(rows, m);
                        proof {
                            changed_at(before, *self, i as int);
                        }
                        if r.is_ok() && !memory {
                            self.rebuild_all_indexes();
                        }
                        r
                    },
                }
            },
        }
    }

    fn write_rows(&mut self, name: &str, rows: &Vec<Row>, defer: bool, m: &Moment) -> (r: DbResult<
        (),
    >)
        requires
            old(self).wf(),
        ensures
            final(self).wf(),
            match r {
                Ok(_) => rows_written(old(self)@, name@, rows.deep_view(), defer, m@) == Ok::<
                    DatabaseModel,
                    Seq<char>,
                >(final(self)@),
                Err(e) => rows_written(old(self)@, name@, rows.deep_view(), defer, m@) == Err::<
                    DatabaseModel,
                    Seq<char>,
                >(e.message@) && final(self)@ == old(self)@,
            },
    {
        proof {
            reveal(rows_written);
        }
        if defer {
            self.stage_rows(name, rows, m)
        } else {
            self.replace_rows(name, rows, m)
        }
    }

    pub fn create_table(&mut self, s: TableSchema) -> (r: DbResult<()>)
        requires
            old(self).wf(),
        ensures
            final(self).wf(),
            match r {
                Ok(_) => table_of(old(self)@, s@.name) is None && final(self)@ == (DatabaseModel {
                    tables: old(self)@.tables.push((s@.name, table::created(s@))),
                    ..old(self)@
                }),
                Err(e) => table_of(old(self)@, s@.name) is Some && final(self)@ == old(self)@
                    && e.message@ == "Table '"@ + s@.name + "' already exists"@,
            },
    {
        if self.find(s.name.as_str()).is_some() {
            return Err(
                DbError::new(error::cat3("Table '", s.name.as_str(), "' already exists")),
            );
        }
        let ghost before = *self;
        let name = s.name.clone();
        let t = Table::create(s);
        let ghost model = t@;
        self.tables.push((name, t));
        proof {
            assert(self@.tables =~= before@.tables.push((name@, model)));
            assert forall|j: int| 0 <= j < self.tables@.len() implies (
            #[trigger] self.tables@[j]).1.wf() by {
                if j < before.tables@.len() {
                    assert(self.tables@[j] == before.tables@[j]);
                }
            }
        }
        Ok(())
    }

    /// Forgets a table, its rows and its indexes.
    pub fn drop_table(&mut self, name: &str) -> (r: DbResult<()>)
        requires
            old(self).wf(),
        ensures
            final(self).wf(),
            match r {
                Ok(_) => table_of(old(self)@, name@) is Some && component(name@) is Ok
                    && final(self)@ == (DatabaseModel {
                    tables: assoc::without_entry(old(self)@.tables, name@),
                    ..old(self)@
                }),
                Err(e) => final(self)@ == old(self)@ && (if table_of(old(self)@, name@) is None {
                    e.message@ == no_table(name@)
                } else {
                    component(name@) == Err::<Seq<char>, Seq<char>>(e.message@)
                }),
            },
    {
        if self.find(name).is_none() {
            return Err(no_table_error(name));
        }
        match rewrite_component(name) {
            Err(e) => {
                return Err(e);
            },
            Ok(_) => {},
        }
        let ghost before = *self;
        let ghost s = before@.tables;
        let ghost p = assoc::other_name::<TableModel>(name@);
        let mut i: usize = 0;
        let ghost mut done: int = 0;
        assert(s.take(0).filter(p) =~= Seq::empty()) by {
            reveal(Seq::filter);
        }
        assert(s =~= s.take(0).filter(p) + s.skip(0));
        while i < self.tables.len()
            invariant
                i <= self.tables@.len(),
                0 <= done <= s.len(),
                p == assoc::other_name::<TableModel>(name@),
                s.len() - done == self.tables@.len() - i,
                self@.tables == s.take(done).filter(p) + s.skip(done),
                s.take(done).filter(p).len() == i,
                self.wf(),
                self.name@ == before@.name,
                self.procedures.deep_view() == before@.procedures,
                self.procedure_metadata.deep_view() == before@.metadata,
            decreases self.tables@.len() - i,
        {
            let ghost prior = *self;
            proof {
                crate::seqs::filter_step(s, done, p);
                assert(self@.tables[i as int] == s[done]);
                assert(self@.tables[i as int].0 == self.tables@[i as int].0@);
            }
            if text::text_equal(self.tables[i].0.as_str(), name) {
                self.tables.remove(i);
                proof {
                    assert(self@.tables =~= prior@.tables.remove(i as int));
                    assert(self@.tables =~= s.take(done + 1).filter(p) + s.skip(done + 1));
                    assert forall|j: int| 0 <= j < self.tables@.len() implies (
                    #[trigger] self.tables@[j]).1.wf() by {
                        if j < i {
                            assert(self.tables@[j] == prior.tables@[j]);
                        } else {
                            assert(self.tables@[j] == prior.tables@[j + 1]);
                        }
                    }
                }
            } else {
                i += 1;
                assert(self@.tables =~= s.take(done + 1).filter(p) + s.skip(done + 1));
            }
            proof {
                done = done + 1;
            }
        }
        proof {
            assert(s.take(done) =~= s);
            assert(s.skip(done) =~= Seq::empty());
            assert(self@.tables =~= s.filter(p));
        }
        Ok(())
    }

    pub fn get_table(&self, name: &str) -> (r: Option<TableSchema>)
        ensures
            r.deep_view() == (match table_of(self@, name@) {
                Some(t) => Some(t.schema),
                None => None,
            }),
    {
        match self.find(name) {
            Some(i) => Some(self.tables[i].1.schema().clone()),
            None => None,
        }
    }

    /// The table of a name.
    pub fn table(&self, name: &str) -> (r: Option<&Table>)
        requires
            self.wf(),
        ensures
            r is Some == table_of(self@, name@) is Some,
            r matches Some(t) ==> t.wf() && table_of(self@, name@) == Some(t@),
    {
        match self.find(name) {
            Some(i) => Some(&self.tables[i].1),
            None => None,
        }
    }

    pub fn list_tables(&self) -> (r: Vec<String>)
        ensures
            r.deep_view() == self@.tables.map_values(|e: (Seq<char>, TableModel)| e.0),
    {
        let ghost target = self@.tables.map_values(|e: (Seq<char>, TableModel)| e.0);
        let mut out: Vec<String> = Vec::new();
        let mut i: usize = 0;
        assert(out.deep_view() =~= target.take(0));
        while i < self.tables.len()
            invariant
                i <= self.tables@.len(),
                target == self@.tables.map_values(|e: (Seq<char>, TableModel)| e.0),
                out.deep_view() == target.take(i as int),
            decreases self.tables@.len() - i,
        {
            let ghost before = out.deep_view();
            out.push(self.tables[i].0.clone());
            assert(self@.tables[i as int].0 == self.tables@[i as int].0@);
            assert(out.deep_view() =~= before.push(target[i as int]));
            assert(target.take(i + 1) =~= target.take(i as int).push(target[i as int]));
            i += 1;
        }
        assert(target.take(i as int) =~= target);
        out
    }

    /// The schemas of the tables.
    pub fn schemas(&self) -> (r: Vec<(String, TableSchema)>)
        requires
            self.wf(),
        ensures
            r.deep_view() == self@.tables.map_values(
                |e: (Seq<char>, TableModel)| (e.0, e.1.schema),
            ),
    {
        let ghost target = self@.tables.map_values(|e: (Seq<char>, TableModel)| (e.0, e.1.schema));
        let mut out: Vec<(String, TableSchema)> = Vec::new();
        let mut i: usize = 0;
        assert(out.deep_view() =~= target.take(0));
        while i < self.tables.len()
            invariant
                i <= self.tables@.len(),
                target == self@.tables.map_values(|e: (Seq<char>, TableModel)| (e.0, e.1.schema)),
                out.deep_view() == target.take(i as int),
            decreases self.tables@.len() - i,
        {
            let ghost before = out.deep_view();
            let s = self.tables[i].1.schema().clone();
            out.push((self.tables[i].0.clone(), s));
            assert(self@.tables[i as int].1 == self.tables@[i as int].1@);
            assert(out.deep_view() =~= before.push(target[i as int]));
            assert(target.take(i + 1) =~= target.take(i as int).push(target[i as int]));
            i += 1;
        }
        assert(target.take(i as int) =~= target);
        out
    }

    pub fn is_memory_table(&self, name: &str) -> (r: bool)
        ensures
            r == (table_of(self@, name@) matches Some(t) && sqltext::is_memory(t.schema)),
    {
        match self.find(name) {
            Some(i) => sqltext::is_memory_schema(self.tables[i].1.schema()),
            None => false,
        }
    }

    // -----------------------------------------------------------------------------------------
    // Rows
    // -----------------------------------------------------------------------------------------
    pub fn insert_rows_validated(&mut self, name: &str, rows: &Vec<Row>, m: &Moment) -> (r: DbResult<
        u64,
    >)
        requires
            old(self).wf(),
        ensures
            final(self).wf(),
            match r {
                Ok(id) => rows_inserted(old(self)@, name@, rows.deep_view(), m@) == Ok::<
                    (DatabaseModel, u64),
                    Seq<char>,
                >((final(self)@, id)),
                Err(e) => rows_inserted(old(self)@, name@, rows.deep_view(), m@) == Err::<
                    (DatabaseModel, u64),
                    Seq<char>,
                >(e.message@) && final(self)@ == old(self)@,
            },
    {
        proof {
            reveal(rows_inserted);
        }
        assert(rows.deep_view().len() == rows@.len());
        if rows.len() == 0 {
            return Ok(0);
        }
        let ghost before = *self;
        match self.find(name) {
            None => Err(no_table_error(name)),
            Some(i) => {
                let r = self.tables[i].1.insert_rows_validated(rows, m);
                proof {
                    changed_at(before, *self, i as int);
                }
                r
            },
        }
    }

    /// Adds one row, which no row may share a key with.
    pub fn insert_row(&mut self, name: &str, r: Row, m: &Moment) -> (res: DbResult<()>)
        requires
            old(self).wf(),
        ensures
            final(self).wf(),
            match res {
                Ok(_) => row_inserted(old(self)@, name@, r@, m@) == Ok::<DatabaseModel, Seq<char>>(
                    final(self)@,
                ),
                Err(e) => row_inserted(old(self)@, name@, r@, m@) == Err::<
                    DatabaseModel,
                    Seq<char>,
                >(e.message@) && final(self)@ == old(self)@,
            },
    {
        proof {
            reveal(row_inserted);
        }
        let i = match self.find(name) {
            None => {
                return Err(no_table_error(name));
            },
            Some(i) => i,
        };
        let t = &self.tables[i].1;
        let full = match values::materialize_row(r, t.schema(), m) {
            Err(e) => {
                return Err(e);
            },
            Ok(full) => full,
        };
        let keys = schema::key_constraints(t.schema());
        let ghost models = keys.deep_view();
        let ghost rows = t@.rows();
        let mut k: usize = 0;
        while k < keys.len()
            invariant
                k <= keys@.len(),
                t.wf(),
                rows == t@.rows(),
                models == keys.deep_view(),
                models == schema::keys(t@.schema),
                taken_key(full@, rows, models, k as int) == taken_key(full@, rows, models, 0),
                self.wf(),
                self@ == old(self)@,
                table_of(self@, name@) == Some(t@),
                values::materialized(r@, t@.schema, m@) == Ok::<RowModel, Seq<char>>(full@),
            decreases keys@.len() - k,
        {
            assert(models[k as int] == keys@[k as int]@);
            match values::encode_key(&full, &keys[k].columns) {
                None => {},
                Some(key) => {
                    if t.constraint_key_exists(k, key.as_slice()) {
                        proof {
                            reveal(row_inserted);
                        }
                        return Err(images::duplicate_error(keys[k].name.as_str()));
                    }
                },
            }
            k += 1;
        }
        let mut list: Vec<Row> = Vec::new();
        list.push(full);
        assert(list.deep_view() =~= seq![full@]);
        match self.insert_rows_validated(name, &list, m) {
            Err(e) => Err(e),
            Ok(_) => Ok(()),
        }
    }

    pub fn scan_table(&self, name: &str) -> (r: DbResult<Vec<Row>>)
        ensures
            match r {
                Ok(rows) => table_of(self@, name@) matches Some(t) && rows.deep_view() == t.rows(),
                Err(e) => table_of(self@, name@) is None && e.message@ == no_table(name@),
            },
    {
        match self.find(name) {
            None => Err(no_table_error(name)),
            Some(i) => Ok(self.tables[i].1.rows()),
        }
    }

    pub fn scan_table_filtered(&self, name: &str, filter: &Option<RowPredicate>, cx: &Context) -> (r:
        DbResult<Vec<Row>>)
        requires
            self.wf(),
        ensures
            match r {
                Ok(rows) => table_of(self@, name@) matches Some(t) && rows.deep_view()
                    == table::scanned(t, filter.deep_view(), None, cx@),
                Err(e) => table_of(self@, name@) is None && e.message@ == no_table(name@),
            },
    {
        self.scan_table_filtered_limit(name, filter, None, cx)
    }

    /// The rows of a table that a filter lets through, up to a limit. Nothing is looked up for a
    /// limit of zero.
    pub fn scan_table_filtered_limit(
        &self,
        name: &str,
        filter: &Option<RowPredicate>,
        limit: Option<usize>,
        cx: &Context,
    ) -> (r: DbResult<Vec<Row>>)
        requires
            self.wf(),
        ensures
            match r {
                Ok(rows) => if limit == Some(0usize) {
                    rows.deep_view() == Seq::<RowModel>::empty()
                } else {
                    table_of(self@, name@) matches Some(t) && rows.deep_view() == table::scanned(
                        t,
                        filter.deep_view(),
                        limit,
                        cx@,
                    )
                },
                Err(e) => limit != Some(0usize) && table_of(self@, name@) is None && e.message@
                    == no_table(name@),
            },
    {
        match limit {
            Some(n) => {
                if n == 0 {
                    let none: Vec<Row> = Vec::new();
                    assert(none.deep_view() =~= Seq::empty());
                    return Ok(none);
                }
            },
            None => {},
        }
        match self.find(name) {
            None => Err(no_table_error(name)),
            Some(i) => Ok(self.tables[i].1.scan_filtered(filter, limit, cx)),
        }
    }

    /// Deletes every row; the result is how many there were.
    pub fn delete_all_rows(&mut self, name: &str, m: &Moment) -> (r: DbResult<u64>)
        requires
            old(self).wf(),
        ensures
            final(self).wf(),
            match r {
                Ok(n) => table_of(old(self)@, name@) matches Some(t) && n == t.rows().len()
                    && rows_replaced(old(self)@, name@, Seq::empty(), m@) == Ok::<
                    DatabaseModel,
                    Seq<char>,
                >(final(self)@),
                Err(e) => rows_replaced(old(self)@, name@, Seq::empty(), m@) == Err::<
                    DatabaseModel,
                    Seq<char>,
                >(e.message@) && final(self)@ == old(self)@,
            },
    {
        proof {
            reveal(rows_replaced);
        }
        match self.scan_table(name) {
            Err(e) => Err(e),
            Ok(rows) => {
                let count: u64 = rows.len() as u64;
                assert(rows.deep_view().len() == rows@.len());
                let none: Vec<Row> = Vec::new();
                assert(none.deep_view() =~= Seq::empty());
                match self.replace_rows(name, &none, m) {
                    Err(e) => Err(e),
                    Ok(_) => Ok(count),
                }
            },
        }
    }

    pub fn update_rows(
        &mut self,
        name: &str,
        filter: &Option<RowPredicate>,
        sets: &Vec<(String, Option<Vec<u8>>)>,
        cx: &Context,
    ) -> (r: DbResult<u64>)
        requires
            old(self).wf(),
        ensures
            final(self).wf(),
            match r {
                Ok(n) => rows_updated(
                    old(self)@,
                    name@,
                    filter.deep_view(),
                    sets.deep_view(),
                    false,
                    cx@,
                ) == Ok::<(DatabaseModel, u64), Seq<char>>((final(self)@, n)),
                Err(e) => rows_updated(
                    old(self)@,
                    name@,
                    filter.deep_view(),
                    sets.deep_view(),
                    false,
                    cx@,
                ) == Err::<(DatabaseModel, u64), Seq<char>>(e.message@) && final(self)@
                    == old(self)@,
            },
    {
        self.update_rows_mode(name, filter, sets, false, cx)
    }

    pub fn update_rows_mode(
        &mut self,
        name: &str,
        filter: &Option<RowPredicate>,
        sets: &Vec<(String, Option<Vec<u8>>)>,
        defer: bool,
        cx: &Context,
    ) -> (r: DbResult<u64>)
        requires
            old(self).wf(),
        ensures
            final(self).wf(),
            match r {
                Ok(n) => rows_updated(
                    old(self)@,
                    name@,
                    filter.deep_view(),
                    sets.deep_view(),
                    defer,
                    cx@,
                ) == Ok::<(DatabaseModel, u64), Seq<char>>((final(self)@, n)),
                Err(e) => rows_updated(
                    old(self)@,
                    name@,
                    filter.deep_view(),
                    sets.deep_view(),
                    defer,
                    cx@,
                ) == Err::<(DatabaseModel, u64), Seq<char>>(e.message@) && final(self)@
                    == old(self)@,
            },
    {
        proof {
            reveal(rows_updated);
        }
        match self.scan_table(name) {
            Err(e) => Err(e),
            Ok(rows) => {
                let (after, affected) = images::update_image(&rows, filter, sets, cx);
                assert(rows.deep_view().len() == rows@.len());
                if affected == 0 {
                    return Ok(0);
                }
                match self.write_rows(name, &after, defer, &cx.moment) {
                    Err(e) => Err(e),
                    Ok(_) => Ok(affected),
                }
            },
        }
    }

    pub fn update_rows_expression_mode(
        &mut self,
        name: &str,
        filter: &Option<RowPredicate>,
        list: &Vec<ExpressionAssignment>,
        defer: bool,
        cx: &Context,
    ) -> (r: DbResult<u64>)
        requires
            old(self).wf(),
        ensures
            final(self).wf(),
            match r {
                Ok(n) => rows_expressed(
                    old(self)@,
                    name@,
                    filter.deep_view(),
                    list.deep_view(),
                    defer,
                    cx@,
                ) == Ok::<(DatabaseModel, u64), Seq<char>>((final(self)@, n)),
                Err(e) => rows_expressed(
                    old(self)@,
                    name@,
                    filter.deep_view(),
                    list.deep_view(),
                    defer,
                    cx@,
                ) == Err::<(DatabaseModel, u64), Seq<char>>(e.message@) && final(self)@
                    == old(self)@,
            },
    {
        proof {
            reveal(rows_expressed);
        }
        let s = match self.get_table(name) {
            None => {
                return Err(no_table_error(name));
            },
            Some(s) => s,
        };
        match self.scan_table(name) {
            Err(e) => Err(e),
            Ok(rows) => match images::express_image(&rows, &s, filter, list, cx) {
                Err(e) => Err(e),
                Ok(out) => {
                    if out.1 == 0 {
                        return Ok(0);
                    }
                    match self.write_rows(name, &out.0, defer, &cx.moment) {
                        Err(e) => Err(e),
                        Ok(_) => Ok(out.1),
                    }
                },
            },
        }
    }

    pub fn delete_rows(&mut self, name: &str, filter: &Option<RowPredicate>, cx: &Context) -> (r:
        DbResult<u64>)
        requires
            old(self).wf(),
        ensures
            final(self).wf(),
            match r {
                Ok(n) => rows_deleted(old(self)@, name@, filter.deep_view(), false, cx@) == Ok::<
                    (DatabaseModel, u64),
                    Seq<char>,
                >((final(self)@, n)),
                Err(e) => rows_deleted(old(self)@, name@, filter.deep_view(), false, cx@) == Err::<
                    (DatabaseModel, u64),
                    Seq<char>,
                >(e.message@) && final(self)@ == old(self)@,
            },
    {
        self.delete_rows_mode(name, filter, false, cx)
    }

    pub fn delete_rows_mode(
        &mut self,
        name: &str,
        filter: &Option<RowPredicate>,
        defer: bool,
        cx: &Context,
    ) -> (r: DbResult<u64>)
        requires
            old(self).wf(),
        ensures
            final(self).wf(),
            match r {
                Ok(n) => rows_deleted(old(self)@, name@, filter.deep_view(), defer, cx@) == Ok::<
                    (DatabaseModel, u64),
                    Seq<char>,
                >((final(self)@, n)),
                Err(e) => rows_deleted(old(self)@, name@, filter.deep_view(), defer, cx@) == Err::<
                    (DatabaseModel, u64),
                    Seq<char>,
                >(e.message@) && final(self)@ == old(self)@,
            },
    {
        proof {
            reveal(rows_deleted);
        }
        match self.scan_table(name) {
            Err(e) => Err(e),
            Ok(rows) => {
                let after = images::delete_image(&rows, filter, cx);
                assert(rows.deep_view().len() == rows@.len());
                assert(after.deep_view().len() == after@.len());
                let affected: u64 = (rows.len() - after.len()) as u64;
                if affected == 0 && filter.is_some() {
                    return Ok(0);
                }
                match self.write_rows(name, &after, defer, &cx.moment) {
                    Err(e) => Err(e),
                    Ok(_) => Ok(affected),
                }
            },
        }
    }

    fn count_to(&mut self, name: &str, next: Option<u64>)
        requires
            old(self).wf(),
        ensures
            final(self).wf(),
            final(self)@ == db_counted_to(old(self)@, name@, next),
    {
        let ghost before = *self;
        match next {
            None => {},
            Some(n) => match self.find(name) {
                None => {},
                Some(i) => {
                    let mut target: u64 = n;
                    match self.tables[i].1.next_id() {
                        Some(current) => {
                            if current >= n {
                                target = current;
                            }
                        },
                        None => {},
                    }
                    self.tables[i].1.set_next_id(Some(target));
                    proof {
                        changed_at(before, *self, i as int);
                    }
                },
            },
        }
    }

    pub fn upsert_rows(
        &mut self,
        name: &str,
        incoming: &Vec<Row>,
        columns: &Vec<String>,
        ignore: bool,
        m: &Moment,
    ) -> (r: DbResult<u64>)
        requires
            old(self).wf(),
        ensures
            final(self).wf(),
            match r {
                Ok(n) => rows_upserted(
                    old(self)@,
                    name@,
                    incoming.deep_view(),
                    columns.deep_view(),
                    ignore,
                    false,
                    m@,
                ) == Ok::<(DatabaseModel, u64), Seq<char>>((final(self)@, n)),
                Err(e) => rows_upserted(
                    old(self)@,
                    name@,
                    incoming.deep_view(),
                    columns.deep_view(),
                    ignore,
                    false,
                    m@,
                ) == Err::<(DatabaseModel, u64), Seq<char>>(e.message@) && final(self)@
                    == old(self)@,
            },
    {
        self.upsert_rows_mode(name, incoming, columns, ignore, false, m)
    }

    pub fn upsert_rows_mode(
        &mut self,
        name: &str,
        incoming: &Vec<Row>,
        columns: &Vec<String>,
        ignore: bool,
        defer: bool,
        m: &Moment,
    ) -> (r: DbResult<u64>)
        requires
            old(self).wf(),
        ensures
            final(self).wf(),
            match r {
                Ok(n) => rows_upserted(
                    old(self)@,
                    name@,
                    incoming.deep_view(),
                    columns.deep_view(),
                    ignore,
                    defer,
                    m@,
                ) == Ok::<(DatabaseModel, u64), Seq<char>>((final(self)@, n)),
                Err(e) => rows_upserted(
                    old(self)@,
                    name@,
                    incoming.deep_view(),
                    columns.deep_view(),
                    ignore,
                    defer,
                    m@,
                ) == Err::<(DatabaseModel, u64), Seq<char>>(e.message@) && final(self)@
                    == old(self)@,
            },
    {
        proof {
            reveal(rows_upserted);
        }
        let i = match self.find(name) {
            None => {
                return Err(no_table_error(name));
            },
            Some(i) => i,
        };
        let s = self.tables[i].1.schema().clone();
        let next_id = self.tables[i].1.next_id();
        let n = match images::assign_auto_increment_rows(&s, next_id, incoming) {
            Err(e) => {
                return Err(e);
            },
            Ok(n) => n,
        };
        let full = match images::materialize_rows(&n.rows, &s, m) {
            Err(e) => {
                return Err(e);
            },
            Ok(full) => full,
        };
        let existing = self.tables[i].1.rows();
        let u = match images::upsert_image(&existing, &full, &s, columns, ignore) {
            Err(e) => {
                return Err(e);
            },
            Ok(u) => u,
        };
        if u.changed {
            match self.write_rows(name, &u.rows, defer, m) {
                Err(e) => {
                    return Err(e);
                },
                Ok(_) => {},
            }
        } else {
            match self.insert_rows_validated(name, &u.inserts, m) {
                Err(e) => {
                    return Err(e);
                },
                Ok(_) => {},
            }
        }
        self.count_to(name, n.next);
        Ok(u.affected)
    }

    /// Numbers and completes rows, so that what is logged is what will stand in the table.
    pub fn prepare_rows_for_wal(&mut self, name: &str, rows: &Vec<Row>, m: &Moment) -> (r: DbResult<
        (Vec<Row>, u64),
    >)
        requires
            old(self).wf(),
        ensures
            final(self).wf(),
            final(self)@ == rows_reserved(old(self)@, name@, rows.deep_view(), m@).0,
            error::outcome(r) == rows_reserved(old(self)@, name@, rows.deep_view(), m@).1,
    {
        proof {
            reveal(rows_reserved);
        }
        let i = match self.find(name) {
            None => {
                return Err(no_table_error(name));
            },
            Some(i) => i,
        };
        let s = self.tables[i].1.schema().clone();
        let next_id = self.tables[i].1.next_id();
        let n = match images::assign_auto_increment_rows(&s, next_id, rows) {
            Err(e) => {
                return Err(e);
            },
            Ok(n) => n,
        };
        self.count_to(name, n.next);
        match images::materialize_rows(&n.rows, &s, m) {
            Err(e) => Err(e),
            Ok(full) => Ok((full, n.last)),
        }
    }

    pub fn materialize_insert_rows(&mut self, name: &str, rows: &Vec<Row>, m: &Moment) -> (r:
        DbResult<(Vec<Row>, u64)>)
        requires
            old(self).wf(),
        ensures
            final(self).wf(),
            final(self)@ == rows_reserved(old(self)@, name@, rows.deep_view(), m@).0,
            error::outcome(r) == rows_reserved(old(self)@, name@, rows.deep_view(), m@).1,
    {
        self.prepare_rows_for_wal(name, rows, m)
    }

    /// Lets a table that numbers its rows count from one again.
    pub fn reset_auto_increment(&mut self, name: &str)
        requires
            old(self).wf(),
        ensures
            final(self).wf(),
            final(self)@ == numbering_reset(old(self)@, name@),
    {
        let ghost before = *self;
        match self.find(name) {
            None => {},
            Some(i) => {
                if sqltext::auto_increment_column(self.tables[i].1.schema()).is_some() {
                    self.tables[i].1.set_next_id(Some(1));
                    proof {
                        changed_at(before, *self, i as int);
                    }
                }
            },
        }
    }

    /// Puts the staged rows of a table on its pages. Where that fails they stay staged.
    pub fn checkpoint_table(&mut self, name: &str, m: &Moment) -> (r: DbResult<()>)
        requires
            old(self).wf(),
        ensures
            final(self).wf(),
            match r {
                Ok(_) => checkpointed(old(self)@, name@, m@) == Ok::<DatabaseModel, Seq<char>>(
                    final(self)@,
                ),
                Err(e) => checkpointed(old(self)@, name@, m@) == Err::<DatabaseModel, Seq<char>>(
                    e.message@,
                ) && final(self)@ == old(self)@,
            },
    {
        proof {
            reveal(checkpointed);
        }
        let i = match self.find(name) {
            None => {
                return Ok(());
            },
            Some(i) => i,
        };
        if !self.tables[i].1.has_overlay() || sqltext::is_memory_schema(
            self.tables[i].1.schema(),
        ) {
            return Ok(());
        }
        let rows = self.tables[i].1.rows();
        match self.replace_rows(name, &rows, m) {
            Err(e) => Err(e),
            Ok(_) => {
                let ghost before = *self;
                match self.find(name) {
                    None => Ok(()),
                    Some(k) => {
                        self.tables[k].1.drop_overlay();
                        proof {
                            changed_at(before, *self, k as int);
                        }
                        self.rebuild_all_indexes();
                        Ok(())
                    },
                }
            },
        }
    }

    pub fn alter_table(&mut self, name: &str, op: &AlterTableOperation, m: &Moment) -> (r: DbResult<
        (),
    >)
        requires
            old(self).wf(),
        ensures
            final(self).wf(),
            final(self)@ == table_altered(old(self)@, name@, op@, m@).0,
            error::outcome(r) == table_altered(old(self)@, name@, op@, m@).1,
    {
        proof {
            reveal(table_altered);
        }
        let i = match self.find(name) {
            None => {
                return Err(no_table_error(name));
            },
            Some(i) => i,
        };
        let mut next = self.tables[i].1.schema().clone();
        match alter::apply_alter_schema(&mut next, op) {
            Err(e) => {
                return Err(e);
            },
            Ok(_) => {},
        }
        let rows = self.tables[i].1.rows();
        match altered::new_key_constraint(op) {
            None => {},
            Some(key) => match images::materialize_rows(&rows, &next, m) {
                Err(e) => {
                    return Err(e);
                },
                Ok(full) => match altered::validate_rows_for_new_key(
                    &full,
                    &key.1,
                    key.0.as_str(),
                    key.2,
                ) {
                    Err(e) => {
                        return Err(e);
                    },
                    Ok(_) => {},
                },
            },
        }
        let ghost before = *self;
        proof {
            alter::altered_keeps_pages(self.tables@[i as int].1@.schema, op@);
        }
        self.tables[i].1.set_schema(next);
        proof {
            changed_at(before, *self, i as int);
        }
        match altered::alter_row_mutation(op) {
            None => {
                self.rebuild_all_indexes();
                Ok(())
            },
            Some(mutation) => {
                let moved = altered::apply_alter_row_mutation(&rows, &mutation);
                match self.replace_rows(name, &moved, m) {
                    Err(e) => Err(e),
                    Ok(_) => {
                        self.rebuild_all_indexes();
                        Ok(())
                    },
                }
            },
        }
    }
}

/// A database in which a table that numbers its rows counts from one again.
pub open spec fn numbering_reset(db: DatabaseModel, name: Seq<char>) -> DatabaseModel {
    match table_of(db, name) {
        None => db,
        Some(t) => if sqltext::auto_increment(t.schema) is Some {
            with_table(db, name, TableModel { next_id: Some(1), ..t })
        } else {
            db
        },
    }
}

/// A database in which one table has changed.
proof fn changed_at(before: Database, after: Database, i: int)
    requires
        before.wf(),
        0 <= i < before.tables@.len(),
        after.tables@.len() == before.tables@.len(),
        forall|j: int|
            0 <= j < before.tables@.len() && j != i ==> (#[trigger] after.tables@[j])
                == before.tables@[j],
        after.tables@[i].0 == before.tables@[i].0,
        after.tables@[i].1.wf(),
        after.name == before.name,
        after.procedures == before.procedures,
        after.procedure_metadata == before.procedure_metadata,
        assoc::entry(before@.tables, before.tables@[i].0@) == Some(i),
    ensures
        after.wf(),
        after@ == with_table(before@, before.tables@[i].0@, after.tables@[i].1@),
        after.tables@[i].1@ == before.tables@[i].1@ ==> after@ == before@,
{
    assert(before@.tables[i].0 == before.tables@[i].0@);
    assert(after@.tables =~= before@.tables.update(
        i,
        (before@.tables[i].0, after.tables@[i].1@),
    ));
    if after.tables@[i].1@ == before.tables@[i].1@ {
        assert(after@.tables =~= before@.tables);
    }
}

// ---------------------------------------------------------------------------------------------
// Loading
// ---------------------------------------------------------------------------------------------
/// A table as it stands after a restart: a MEMORY table has lost its rows, and any other has those
/// of its pages. Its next page goes behind all that are listed.
pub open spec fn loaded(s: SchemaModel, listed: Seq<u32>, pages: Seq<RowPageModel>) -> TableModel {
    if sqltext::is_memory(s) {
        table::recounted(
            TableModel {
                schema: SchemaModel {
                    engine: schema::TableEngine::Memory,
                    next_page_number: 0,
                    ..s
                },
                next_id: None,
                pages: Seq::empty(),
                overlay: Some(Seq::empty()),
            },
        )
    } else {
        table::recounted(
            TableModel {
                schema: SchemaModel { next_page_number: rowpages::number_behind(listed), ..s },
                next_id: None,
                pages: pages,
                overlay: None,
            },
        )
    }
}

impl Database {
    /// Takes up a table that was read from disk: its pages, and the numbers listed for it, of which
    /// some may have no page.
    pub fn load_table(
        &mut self,
        name: &str,
        s: TableSchema,
        listed: &Vec<u32>,
        pages: Vec<Page>,
    ) -> (r: DbResult<()>)
        requires
            old(self).wf(),
        ensures
            final(self).wf(),
            match r {
                Ok(_) => final(self)@ == (DatabaseModel {
                    tables: assoc::with_entry(
                        old(self)@.tables,
                        name@,
                        loaded(s@, listed@, rowpages::contents(pages.deep_view())),
                    ),
                    ..old(self)@
                }),
                Err(e) => final(self)@ == old(self)@ && e.message@ == "Pages of table '"@ + name@
                    + "' are not those listed"@,
            },
            r is Err == (!sqltext::is_memory(s@) && !rowpages::in_order(
                rowpages::contents(pages.deep_view()),
                rowpages::number_behind(listed@) as int,
            )),
    {
        let mut s = s;
        let memory = sqltext::is_memory_schema(&s);
        let ghost given = s@;
        let mut t = if memory {
            s.engine = schema::TableEngine::Memory;
            s.next_page_number = 0;
            let none: Vec<Page> = Vec::new();
            let rows: Vec<Row> = Vec::new();
            assert(rows.deep_view() =~= Seq::empty());
            assert(rowpages::contents(none.deep_view()) =~= Seq::empty());
            Table::build(s, None, none, Some(rows))
        } else {
            let next = rowpages::next_number(listed);
            if !rowpages::pages_in_order(&pages, next) {
                return Err(
                    DbError::new(error::cat3("Pages of table '", name, "' are not those listed")),
                );
            }
            s.next_page_number = next;
            Table::build(s, None, pages, None)
        };
        t.rebuild_indexes();
        let ghost before = *self;
        match self.find(name) {
            Some(i) => {
                let key = self.tables[i].0.clone();
                self.tables.set(i, (key, t));
                proof {
                    assert(before@.tables[i as int].0 == before.tables@[i as int].0@);
                    assert(self@.tables =~= before@.tables.update(
                        i as int,
                        (before@.tables[i as int].0, t@),
                    ));
                }
            },
            None => {
                self.tables.push((text::copy_text(name), t));
                proof {
                    assert(self@.tables =~= before@.tables.push((name@, t@)));
                }
            },
        }
        proof {
            assert forall|j: int| 0 <= j < self.tables@.len() implies (
            #[trigger] self.tables@[j]).1.wf() by {
                if j < before.tables@.len() {
                    assert(before.tables@[j].1.wf());
                }
            }
        }
        Ok(())
    }
}

// ---------------------------------------------------------------------------------------------
// Procedures
// ---------------------------------------------------------------------------------------------
/// The first entry, from the `at`-th on, whose name agrees up to case.
pub open spec fn fold_entry<V>(list: Seq<(Seq<char>, V)>, name: Seq<char>, at: int) -> Option<int>
    decreases list.len() - at,
{
    if at < 0 || at >= list.len() {
        None
    } else if text::same_fold(list[at].0, name) {
        Some(at)
    } else {
        fold_entry(list, name, at + 1)
    }
}

pub fn find_fold<V: DeepView>(list: &Vec<(String, V)>, name: &str) -> (r: Option<usize>)
    ensures
        r is Some == fold_entry(list.deep_view(), name@, 0) is Some,
        r matches Some(i) ==> i < list@.len() && fold_entry(list.deep_view(), name@, 0) == Some(
            i as int,
        ),
{
    let ghost s = list.deep_view();
    let mut i: usize = 0;
    while i < list.len()
        invariant
            i <= list@.len(),
            s == list.deep_view(),
            fold_entry(s, name@, i as int) == fold_entry(s, name@, 0),
        decreases list@.len() - i,
    {
        assert(s[i as int].0 == list@[i as int].0@);
        if text::eq_fold(list[i].0.as_str(), name) {
            return Some(i);
        }
        i += 1;
    }
    None
}

pub open spec fn procedure_exists(name: Seq<char>) -> Seq<char> {
    "PROCEDURE "@ + name + " already exists"@
}

pub fn procedure_exists_error(name: &str) -> (r: DbError)
    ensures
        r.message@ == procedure_exists(name@),
{
    DbError::new(error::cat3("PROCEDURE ", name, " already exists"))
}

pub open spec fn no_procedure(name: Seq<char>) -> Seq<char> {
    "PROCEDURE "@ + name + " does not exist"@
}

pub fn no_procedure_error(name: &str) -> (r: DbError)
    ensures
        r.message@ == no_procedure(name@),
{
    DbError::new(error::cat3("PROCEDURE ", name, " does not exist"))
}

pub type ProcedureList = Seq<(Seq<char>, ProcedureModel)>;

/// Procedures with one more, whose name none of them may have.
pub open spec fn procedure_added(list: ProcedureList, p: ProcedureModel) -> Result<
    ProcedureList,
    Seq<char>,
> {
    if fold_entry(list, p.name, 0) is Some {
        Err(procedure_exists(p.name))
    } else {
        Ok(assoc::with_entry(list, p.name, p))
    }
}

pub open spec fn procedure_removed(list: ProcedureList, name: Seq<char>) -> Result<
    ProcedureList,
    Seq<char>,
> {
    match fold_entry(list, name, 0) {
        None => Err(no_procedure(name)),
        Some(i) => Ok(assoc::without_entry(list, list[i].0)),
    }
}

pub open spec fn procedure_changed(list: ProcedureList, name: Seq<char>, sql: Seq<char>) -> Result<
    ProcedureList,
    Seq<char>,
> {
    match fold_entry(list, name, 0) {
        None => Err(no_procedure(name)),
        Some(i) => Ok(
            list.update(i, (list[i].0, ProcedureModel { create_sql: sql, ..list[i].1 })),
        ),
    }
}

pub fn add_procedure(list: &mut Vec<(String, ProcedureDefinition)>, p: ProcedureDefinition) -> (r:
    DbResult<()>)
    ensures
        match r {
            Ok(_) => procedure_added(old(list).deep_view(), p@) == Ok::<ProcedureList, Seq<char>>(
                final(list).deep_view(),
            ),
            Err(e) => procedure_added(old(list).deep_view(), p@) == Err::<ProcedureList, Seq<char>>(
                e.message@,
            ) && final(list).deep_view() == old(list).deep_view(),
        },
{
    if find_fold(list, p.name.as_str()).is_some() {
        return Err(procedure_exists_error(p.name.as_str()));
    }
    let name = p.name.clone();
    assoc::set_entry(list, name.as_str(), p);
    Ok(())
}

pub fn remove_procedure(list: &mut Vec<(String, ProcedureDefinition)>, name: &str) -> (r: DbResult<
    String,
>)
    ensures
        match r {
            Ok(stored) => procedure_removed(old(list).deep_view(), name@) == Ok::<
                ProcedureList,
                Seq<char>,
            >(final(list).deep_view()) && stored@ == old(list).deep_view()[fold_entry(
                old(list).deep_view(),
                name@,
                0,
            )->0].0,
            Err(e) => procedure_removed(old(list).deep_view(), name@) == Err::<
                ProcedureList,
                Seq<char>,
            >(e.message@) && final(list).deep_view() == old(list).deep_view(),
        },
{
    match find_fold(list, name) {
        None => Err(no_procedure_error(name)),
        Some(i) => {
            let stored = list[i].0.clone();
            assert(list.deep_view()[i as int].0 == stored@);
            assoc::remove_entries(list, stored.as_str());
            Ok(stored)
        },
    }
}

pub fn change_procedure(
    list: &mut Vec<(String, ProcedureDefinition)>,
    name: &str,
    sql: String,
) -> (r: DbResult<String>)
    ensures
        match r {
            Ok(stored) => procedure_changed(old(list).deep_view(), name@, sql@) == Ok::<
                ProcedureList,
                Seq<char>,
            >(final(list).deep_view()) && stored@ == old(list).deep_view()[fold_entry(
                old(list).deep_view(),
                name@,
                0,
            )->0].0,
            Err(e) => procedure_changed(old(list).deep_view(), name@, sql@) == Err::<
                ProcedureList,
                Seq<char>,
            >(e.message@) && final(list).deep_view() == old(list).deep_view(),
        },
{
    match find_fold(list, name) {
        None => Err(no_procedure_error(name)),
        Some(i) => {
            let ghost before = list.deep_view();
            let stored = list[i].0.clone();
            let mut p = list[i].1.clone();
            p.create_sql = sql;
            let ghost model = p@;
            list.set(i, (stored.clone(), p));
            proof {
                assert(before[i as int].0 == stored@);
                assert(model == (ProcedureModel { create_sql: sql@, ..before[i as int].1 }));
                assert(list.deep_view() =~= before.update(i as int, (stored@, model)));
            }
            Ok(stored)
        },
    }
}

/// What a change of the procedures comes to, with the metadata of the one that it stores.
pub open spec fn with_procedures(
    db: DatabaseModel,
    list: ProcedureList,
    stored: Seq<char>,
    metadata: MetadataModel,
) -> DatabaseModel {
    DatabaseModel {
        procedures: list,
        metadata: assoc::with_entry(db.metadata, stored, metadata),
        ..db
    }
}

/// What creating a procedure comes to.
#[verifier::opaque]
pub open spec fn procedure_created(db: DatabaseModel, p: ProcedureModel, metadata: MetadataModel) -> Result<
    DatabaseModel,
    Seq<char>,
> {
    match procedure_added(db.procedures, p) {
        Err(e) => Err(e),
        Ok(list) => Ok(with_procedures(db, list, p.name, metadata)),
    }
}

#[verifier::opaque]
pub open spec fn procedure_dropped(db: DatabaseModel, name: Seq<char>) -> Result<
    DatabaseModel,
    Seq<char>,
> {
    match procedure_removed(db.procedures, name) {
        Err(e) => Err(e),
        Ok(list) => Ok(
            DatabaseModel {
                procedures: list,
                metadata: assoc::without_entry(
                    db.metadata,
                    db.procedures[fold_entry(db.procedures, name, 0)->0].0,
                ),
                ..db
            },
        ),
    }
}

#[verifier::opaque]
pub open spec fn procedure_altered(
    db: DatabaseModel,
    name: Seq<char>,
    sql: Seq<char>,
    metadata: MetadataModel,
) -> Result<DatabaseModel, Seq<char>> {
    match procedure_changed(db.procedures, name, sql) {
        Err(e) => Err(e),
        Ok(list) => Ok(
            with_procedures(
                db,
                list,
                db.procedures[fold_entry(db.procedures, name, 0)->0].0,
                metadata,
            ),
        ),
    }
}

pub open spec fn metadata_of(db: DatabaseModel, name: Seq<char>) -> Option<MetadataModel> {
    match fold_entry(db.metadata, name, 0) {
        Some(i) => Some(db.metadata[i].1),
        None => None,
    }
}

impl Database {
    pub fn create_procedure_with_metadata(
        &mut self,
        procedure: ProcedureDefinition,
        metadata: ProcedureMetadata,
    ) -> (r: DbResult<()>)
        requires
            old(self).wf(),
        ensures
            final(self).wf(),
            match r {
                Ok(_) => procedure_created(old(self)@, procedure@, metadata@) == Ok::<
                    DatabaseModel,
                    Seq<char>,
                >(final(self)@),
                Err(e) => procedure_created(old(self)@, procedure@, metadata@) == Err::<
                    DatabaseModel,
                    Seq<char>,
                >(e.message@) && final(self)@ == old(self)@,
            },
    {
        proof {
            reveal(procedure_created);
        }
        let name = procedure.name.clone();
        match add_procedure(&mut self.procedures, procedure) {
            Err(e) => Err(e),
            Ok(_) => {
                assoc::set_entry(&mut self.procedure_metadata, name.as_str(), metadata);
                Ok(())
            },
        }
    }

    /// Creates a procedure at a moment.
    pub fn create_procedure(&mut self, procedure: ProcedureDefinition, m: &Moment) -> (r: DbResult<
        (),
    >)
        requires
            old(self).wf(),
        ensures
            final(self).wf(),
            match r {
                Ok(_) => procedure_created(old(self)@, procedure@, schema::created_metadata(m@))
                    == Ok::<DatabaseModel, Seq<char>>(final(self)@),
                Err(e) => procedure_created(old(self)@, procedure@, schema::created_metadata(m@))
                    == Err::<DatabaseModel, Seq<char>>(e.message@) && final(self)@ == old(self)@,
            },
    {
        let metadata = ProcedureMetadata::created_at(m, String::new());
        self.create_procedure_with_metadata(procedure, metadata)
    }

    pub fn drop_procedure(&mut self, name: &str) -> (r: DbResult<()>)
        requires
            old(self).wf(),
        ensures
            final(self).wf(),
            match r {
                Ok(_) => procedure_dropped(old(self)@, name@) == Ok::<DatabaseModel, Seq<char>>(
                    final(self)@,
                ),
                Err(e) => procedure_dropped(old(self)@, name@) == Err::<DatabaseModel, Seq<char>>(
                    e.message@,
                ) && final(self)@ == old(self)@,
            },
    {
        proof {
            reveal(procedure_dropped);
        }
        match remove_procedure(&mut self.procedures, name) {
            Err(e) => Err(e),
            Ok(stored) => {
                assoc::remove_entries(&mut self.procedure_metadata, stored.as_str());
                Ok(())
            },
        }
    }

    pub fn alter_procedure_with_metadata(
        &mut self,
        name: &str,
        create_sql: String,
        metadata: ProcedureMetadata,
    ) -> (r: DbResult<()>)
        requires
            old(self).wf(),
        ensures
            final(self).wf(),
            match r {
                Ok(_) => procedure_altered(old(self)@, name@, create_sql@, metadata@) == Ok::<
                    DatabaseModel,
                    Seq<char>,
                >(final(self)@),
                Err(e) => procedure_altered(old(self)@, name@, create_sql@, metadata@) == Err::<
                    DatabaseModel,
                    Seq<char>,
                >(e.message@) && final(self)@ == old(self)@,
            },
    {
        proof {
            reveal(procedure_altered);
        }
        match change_procedure(&mut self.procedures, name, create_sql) {
            Err(e) => Err(e),
            Ok(stored) => {
                assoc::set_entry(&mut self.procedure_metadata, stored.as_str(), metadata);
                Ok(())
            },
        }
    }

    /// Alters a procedure at a moment; when it was created stays as it was.
    pub fn alter_procedure(&mut self, name: &str, create_sql: String, m: &Moment) -> (r: DbResult<()>)
        requires
            old(self).wf(),
        ensures
            final(self).wf(),
            ({
                let metadata = schema::altered_metadata(
                    match metadata_of(old(self)@, name@) {
                        Some(found) => found,
                        None => schema::created_metadata(m@),
                    },
                    m@,
                );
                match r {
                    Ok(_) => procedure_altered(old(self)@, name@, create_sql@, metadata) == Ok::<
                        DatabaseModel,
                        Seq<char>,
                    >(final(self)@),
                    Err(e) => procedure_altered(old(self)@, name@, create_sql@, metadata) == Err::<
                        DatabaseModel,
                        Seq<char>,
                    >(e.message@) && final(self)@ == old(self)@,
                }
            }),
    {
        let known = match self.get_procedure_metadata(name) {
            Some(found) => found,
            None => ProcedureMetadata::created_at(m, String::new()),
        };
        let metadata = known.altered_at(m, String::new());
        self.alter_procedure_with_metadata(name, create_sql, metadata)
    }

    pub fn get_procedure(&self, name: &str) -> (r: Option<ProcedureDefinition>)
        ensures
            r.deep_view() == (match fold_entry(self@.procedures, name@, 0) {
                Some(i) => Some(self@.procedures[i].1),
                None => None,
            }),
    {
        match find_fold(&self.procedures, name) {
            Some(i) => Some(self.procedures[i].1.clone()),
            None => None,
        }
    }

    pub fn list_procedures(&self) -> (r: Vec<ProcedureDefinition>)
        ensures
            r.deep_view() == self@.procedures.map_values(|e: (Seq<char>, ProcedureModel)| e.1),
    {
        let ghost target = self@.procedures.map_values(|e: (Seq<char>, ProcedureModel)| e.1);
        let mut out: Vec<ProcedureDefinition> = Vec::new();
        let mut i: usize = 0;
        assert(out.deep_view() =~= target.take(0));
        while i < self.procedures.len()
            invariant
                i <= self.procedures@.len(),
                target == self@.procedures.map_values(|e: (Seq<char>, ProcedureModel)| e.1),
                out.deep_view() == target.take(i as int),
            decreases self.procedures@.len() - i,
        {
            let ghost before = out.deep_view();
            let one = self.procedures[i].1.clone();
            out.push(one);
            assert(self@.procedures[i as int].1 == self.procedures@[i as int].1@);
            assert(out.deep_view() =~= before.push(target[i as int]));
            assert(target.take(i + 1) =~= target.take(i as int).push(target[i as int]));
            i += 1;
        }
        assert(target.take(i as int) =~= target);
        out
    }

    pub fn get_procedure_metadata(&self, name: &str) -> (r: Option<ProcedureMetadata>)
        ensures
            r.deep_view() == metadata_of(self@, name@),
    {
        match find_fold(&self.procedure_metadata, name) {
            Some(i) => Some(self.procedure_metadata[i].1.clone()),
            None => None,
        }
    }

    /// A copy of the procedures.
    pub fn procedures_copy(&self) -> (r: Vec<(String, ProcedureDefinition)>)
        ensures
            r.deep_view() == self@.procedures,
    {
        copy_procedures(&self.procedures)
    }

    /// Takes up procedures that were read from disk, with their metadata.
    pub fn load_procedures(
        &mut self,
        procedures: Vec<(String, ProcedureDefinition)>,
        metadata: Vec<(String, ProcedureMetadata)>,
    )
        requires
            old(self).wf(),
        ensures
            final(self).wf(),
            final(self)@ == (DatabaseModel {
                procedures: procedures.deep_view(),
                metadata: metadata.deep_view(),
                ..old(self)@
            }),
    {
        self.procedures = procedures;
        self.procedure_metadata = metadata;
    }
}

pub fn copy_procedures(list: &Vec<(String, ProcedureDefinition)>) -> (r: Vec<
    (String, ProcedureDefinition),
>)
    ensures
        r.deep_view() == list.deep_view(),
{
    let mut out: Vec<(String, ProcedureDefinition)> = Vec::new();
    let mut i: usize = 0;
    while i < list.len()
        invariant
            i <= list@.len(),
            out@.len() == i,
            forall|j: int| 0 <= j < i ==> out.deep_view()[j] == list.deep_view()[j],
        decreases list@.len() - i,
    {
        let ghost before = out.deep_view();
        let p = list[i].1.clone();
        out.push((list[i].0.clone(), p));
        assert(out.deep_view() =~= before.push(list.deep_view()[i as int]));
        i += 1;
    }
    assert(out.deep_view() =~= list.deep_view());
    out
}

/// The metadata of procedures that were stored without it: all as old as the file.
pub fn legacy_metadata(procedures: &Vec<(String, ProcedureDefinition)>, stamp: &str) -> (r: Vec<
    (String, ProcedureMetadata),
>)
    ensures
        r.deep_view() == procedures.deep_view().map_values(
            |e: (Seq<char>, ProcedureModel)|
                (e.0, MetadataModel { created: stamp@, last_altered: stamp@, sql_mode: Seq::empty() }),
        ),
{
    let ghost target = procedures.deep_view().map_values(
        |e: (Seq<char>, ProcedureModel)|
            (e.0, MetadataModel { created: stamp@, last_altered: stamp@, sql_mode: Seq::empty() }),
    );
    let mut out: Vec<(String, ProcedureMetadata)> = Vec::new();
    let mut i: usize = 0;
    assert(out.deep_view() =~= target.take(0));
    while i < procedures.len()
        invariant
            i <= procedures@.len(),
            target.len() == procedures@.len(),
            forall|j: int|
                0 <= j < procedures@.len() ==> (#[trigger] target[j]) == (
                    procedures@[j].0@,
                    MetadataModel {
                        created: stamp@,
                        last_altered: stamp@,
                        sql_mode: Seq::empty(),
                    },
                ),
            out.deep_view() == target.take(i as int),
        decreases procedures@.len() - i,
    {
        let ghost before = out.deep_view();
        let one = ProcedureMetadata {
            created: text::copy_text(stamp),
            last_altered: text::copy_text(stamp),
            sql_mode: String::new(),
        };
        assert(one@.sql_mode =~= Seq::empty());
        out.push((procedures[i].0.clone(), one));
        assert(out.deep_view() =~= before.push(target[i as int]));
        assert(target.take(i + 1) =~= target.take(i as int).push(target[i as int]));
        i += 1;
    }
    assert(target.take(i as int) =~= target);
    out
}

// ---------------------------------------------------------------------------------------------
// Laws
// ---------------------------------------------------------------------------------------------
/// Counting anew moves no table.
pub proof fn lookup_recounted(tables: Seq<(Seq<char>, TableModel)>, name: Seq<char>, from: int)
    requires
        0 <= from,
    ensures
        assoc::entry_from(
            tables.map_values(|e: (Seq<char>, TableModel)| (e.0, table::recounted(e.1))),
            name,
            from,
        ) == assoc::entry_from(tables, name, from),
    decreases tables.len() - from,
{
    if from < tables.len() {
        lookup_recounted(tables, name, from + 1);
    }
}

/// Writing the rows of one table leaves the rows and the schema of every other as they were.
pub proof fn other_tables_keep_rows(
    db: DatabaseModel,
    name: Seq<char>,
    rows: Seq<RowModel>,
    defer: bool,
    m: MomentModel,
    other: Seq<char>,
)
    requires
        rows_written(db, name, rows, defer, m) is Ok,
        other != name,
    ensures
        match (table_of(rows_written(db, name, rows, defer, m)->Ok_0, other), table_of(db, other)) {
            (Some(a), Some(b)) => a.rows() == b.rows() && a.schema == b.schema,
            (None, None) => true,
            _ => false,
        },
{
    reveal(rows_written);
    reveal(rows_staged);
    reveal(rows_replaced);
    let t = table_of(db, name)->0;
    let after = if defer {
        table::staged(t, rows, m)->Ok_0
    } else {
        table::replaced(t, rows, m)->Ok_0
    };
    assoc::set_then_lookup(db.tables, name, after, other);
    let next = with_table(db, name, after);
    lookup_recounted(next.tables, other, 0);
    assoc::entry_found(next.tables, other, 0);
}

/// Rows that were written have each key at most once.
pub proof fn written_keys_unique(
    t: TableModel,
    rows: Seq<RowModel>,
    m: MomentModel,
    k: int,
)
    requires
        table::staged(t, rows, m) is Ok,
        0 <= k < schema::keys(t.schema).len(),
    ensures
        images::unique(
            table::staged(t, rows, m)->Ok_0.rows(),
            schema::keys(t.schema)[k].columns,
        ),
{
    images::prepared_unique(rows, t.schema, m, k);
}

/// Dropping a table that was just created leaves the database as it was.
pub proof fn create_then_drop(db: DatabaseModel, s: SchemaModel)
    requires
        table_of(db, s.name) is None,
    ensures
        assoc::without_entry(db.tables.push((s.name, table::created(s))), s.name) == db.tables,
{
    let p = assoc::other_name::<TableModel>(s.name);
    let more = db.tables.push((s.name, table::created(s)));
    assoc::entry_found(db.tables, s.name, 0);
    reveal(Seq::filter);
    assert(more.drop_last() =~= db.tables);
    all_pass(db.tables, p);
}

proof fn all_pass(list: Seq<(Seq<char>, TableModel)>, p: spec_fn((Seq<char>, TableModel)) -> bool)
    requires
        forall|i: int| 0 <= i < list.len() ==> p(#[trigger] list[i]),
    ensures
        list.filter(p) == list,
    decreases list.len(),
{
    reveal(Seq::filter);
    if list.len() > 0 {
        all_pass(list.drop_last(), p);
        assert(list =~= list.drop_last().push(list.last()));
    }
}

} // verus!
