//! Preparing requests: rows are numbered and completed, and what foreign keys make of the changes
//! becomes part of the request, so that the log holds what will stand in the tables.
use crate::apply;
use crate::assoc;
use crate::batch;
use crate::commands;
use crate::commands::{CommandModel, PreparedTransactionBatch, WriteCommand};
use crate::database;
use crate::database::{Database, DatabaseModel};
use crate::error;
use crate::error::{DbError, DbResult};
use crate::fkeys;
use crate::fkeys::{ForeignKeyModel, ForeignKeySpec};
use crate::images;
use crate::pairs;
use crate::predicate::{Context, ContextModel};
use crate::referential;
use crate::referential::{Cascade, CascadeModel, Change, ChangeModel, RelatedModel};
use crate::row;
use crate::row::{Row, RowModel};
use crate::schema;
use crate::schema::{MomentModel, SchemaModel, TableSchema};
use crate::store;
use crate::store::{Store, StoreModel};
use crate::table::TableModel;
use crate::text;
use crate::validate::TablesModel;
use crate::values;
use vstd::prelude::*;

verus! {

// ---------------------------------------------------------------------------------------------
// Foreign keys of a database
// ---------------------------------------------------------------------------------------------
/// The foreign keys of the first `n` tables.
pub open spec fn keys_upto(tables: TablesModel, n: int) -> Seq<ForeignKeyModel>
    decreases n,
{
    if n <= 0 {
        Seq::empty()
    } else {
        keys_upto(tables, n - 1) + fkeys::foreign_keys(tables[n - 1].0, tables[n - 1].1)
    }
}

pub open spec fn all_keys(tables: TablesModel) -> Seq<ForeignKeyModel> {
    keys_upto(tables, tables.len() as int)
}

pub fn collect_keys(tables: &Vec<(String, TableSchema)>) -> (r: Vec<ForeignKeySpec>)
    ensures
        r.deep_view() == all_keys(tables.deep_view()),
{
    let ghost all = tables.deep_view();
    let mut out: Vec<ForeignKeySpec> = Vec::new();
    let mut i: usize = 0;
    assert(out.deep_view() =~= Seq::empty());
    while i < tables.len()
        invariant
            i <= tables@.len(),
            all == tables.deep_view(),
            out.deep_view() == keys_upto(all, i as int),
        decreases tables@.len() - i,
    {
        assert(all[i as int] == (tables@[i as int].0@, tables@[i as int].1@));
        let mut keys = fkeys::table_foreign_keys(tables[i].0.as_str(), &tables[i].1);
        let ghost before = out.deep_view();
        let ghost more = keys.deep_view();
        out.append(&mut keys);
        assert(out.deep_view() =~= before + more);
        i += 1;
    }
    assert(all.len() == tables@.len());
    out
}

/// The tables that the keys from the `at`-th on relate, sorted, beside those named before.
pub open spec fn related_from(keys: Seq<ForeignKeyModel>, at: int, names: Seq<Seq<char>>) -> Seq<
    Seq<char>,
>
    decreases keys.len() - at,
{
    if at < 0 || at >= keys.len() {
        names
    } else {
        related_from(
            keys,
            at + 1,
            assoc::with_name(
                assoc::with_name(names, keys[at].child_table),
                keys[at].parent_table,
            ),
        )
    }
}

pub open spec fn related_tables(keys: Seq<ForeignKeyModel>) -> Seq<Seq<char>> {
    related_from(keys, 0, Seq::empty())
}

pub fn collect_related(keys: &Vec<ForeignKeySpec>) -> (r: Vec<String>)
    ensures
        r.deep_view() == related_tables(keys.deep_view()),
{
    let ghost models = keys.deep_view();
    let mut out: Vec<String> = Vec::new();
    let mut i: usize = 0;
    assert(out.deep_view() =~= Seq::empty());
    while i < keys.len()
        invariant
            i <= keys@.len(),
            models == keys.deep_view(),
            related_from(models, i as int, out.deep_view()) == related_tables(models),
        decreases keys@.len() - i,
    {
        assert(models[i as int] == keys@[i as int]@);
        assoc::add_name(&mut out, keys[i].child_table.as_str());
        assoc::add_name(&mut out, keys[i].parent_table.as_str());
        i += 1;
    }
    out
}

/// Whether a command changes rows of a related table.
pub open spec fn is_related(c: CommandModel, d: Seq<char>, names: Seq<Seq<char>>) -> bool {
    commands::rows_target(c) matches Some((db, t)) && db == d && names.contains(t)
}

fn command_is_related(c: &WriteCommand, d: &str, names: &Vec<String>) -> (r: bool)
    ensures
        r == is_related(c@, d@, names.deep_view()),
{
    match commands::command_table(c) {
        None => false,
        Some(target) => text::text_equal(target.0.as_str(), d) && assoc::has_name(
            names,
            target.1.as_str(),
        ),
    }
}

pub open spec fn any_related(list: Seq<CommandModel>, d: Seq<char>, names: Seq<Seq<char>>) -> bool {
    exists|i: int| 0 <= i < list.len() && is_related(#[trigger] list[i], d, names)
}

pub fn has_related(list: &Vec<WriteCommand>, d: &str, names: &Vec<String>) -> (r: bool)
    ensures
        r == any_related(list.deep_view(), d@, names.deep_view()),
{
    let ghost all = list.deep_view();
    let mut i: usize = 0;
    while i < list.len()
        invariant
            i <= list@.len(),
            all == list.deep_view(),
            forall|j: int| 0 <= j < i ==> !is_related(#[trigger] all[j], d@, names.deep_view()),
        decreases list@.len() - i,
    {
        assert(all[i as int] == list@[i as int]@);
        if command_is_related(&list[i], d, names) {
            return true;
        }
        i += 1;
    }
    false
}

/// The rows of the tables from the `at`-th on.
pub open spec fn images_from(
    db: DatabaseModel,
    names: Seq<Seq<char>>,
    at: int,
    done: RelatedModel,
) -> Result<RelatedModel, Seq<char>>
    decreases names.len() - at,
{
    if at < 0 || at >= names.len() {
        Ok(done)
    } else {
        match database::table_of(db, names[at]) {
            None => Err(database::no_table(names[at])),
            Some(t) => images_from(
                db,
                names,
                at + 1,
                assoc::with_entry(done, names[at], t.rows()),
            ),
        }
    }
}

fn load_images(db: &Database, names: &Vec<String>) -> (r: DbResult<Vec<(String, Vec<Row>)>>)
    ensures
        error::outcome(r) == images_from(db@, names.deep_view(), 0, Seq::empty()),
{
    let ghost all = names.deep_view();
    let mut out: Vec<(String, Vec<Row>)> = Vec::new();
    let mut i: usize = 0;
    assert(out.deep_view() =~= Seq::empty());
    while i < names.len()
        invariant
            i <= names@.len(),
            all == names.deep_view(),
            images_from(db@, all, i as int, out.deep_view()) == images_from(
                db@,
                all,
                0,
                Seq::empty(),
            ),
        decreases names@.len() - i,
    {
        assert(all[i as int] == names@[i as int]@);
        match db.scan_table(names[i].as_str()) {
            Err(e) => {
                return Err(e);
            },
            Ok(rows) => {
                assoc::set_entry(&mut out, names[i].as_str(), rows);
            },
        }
        i += 1;
    }
    Ok(out)
}

fn copy_images(related: &Vec<(String, Vec<Row>)>) -> (r: Vec<(String, Vec<Row>)>)
    ensures
        r.deep_view() == related.deep_view(),
{
    let mut out: Vec<(String, Vec<Row>)> = Vec::new();
    let mut i: usize = 0;
    while i < related.len()
        invariant
            i <= related@.len(),
            out@.len() == i,
            forall|j: int| 0 <= j < i ==> out.deep_view()[j] == related.deep_view()[j],
        decreases related@.len() - i,
    {
        let ghost before = out.deep_view();
        let rows = commands::copy_rows(&related[i].1);
        out.push((related[i].0.clone(), rows));
        assert(out.deep_view() =~= before.push(related.deep_view()[i as int]));
        i += 1;
    }
    assert(out.deep_view() =~= related.deep_view());
    out
}

// ---------------------------------------------------------------------------------------------
// Playing a request against the related tables
// ---------------------------------------------------------------------------------------------
/// What the commands so far have come to. The commands on related tables are gone; what they did
/// stands in the rows.
#[verifier::ext_equal]
pub struct WalkModel {
    pub related: RelatedModel,
    /// The rows before the current statement.
    pub initial: RelatedModel,
    pub started: bool,
    pub changed: Seq<Seq<char>>,
    pub affected: u64,
    pub retained: Seq<CommandModel>,
}

pub struct Walk {
    pub related: Vec<(String, Vec<Row>)>,
    pub initial: Vec<(String, Vec<Row>)>,
    pub started: bool,
    pub changed: Vec<String>,
    pub affected: u64,
    pub retained: Vec<WriteCommand>,
}

impl View for Walk {
    type V = WalkModel;

    open spec fn view(&self) -> WalkModel {
        WalkModel {
            related: self.related.deep_view(),
            initial: self.initial.deep_view(),
            started: self.started,
            changed: self.changed.deep_view(),
            affected: self.affected,
            retained: self.retained.deep_view(),
        }
    }
}

/// The names of the tables of changes, from the `at`-th on, beside those named before.
pub open spec fn named_changes(changes: Seq<ChangeModel>, at: int, names: Seq<Seq<char>>) -> Seq<
    Seq<char>,
>
    decreases changes.len() - at,
{
    if at < 0 || at >= changes.len() {
        names
    } else {
        named_changes(changes, at + 1, assoc::with_name(names, changes[at].table))
    }
}

fn name_changes(changes: &Vec<Change>, names: &mut Vec<String>)
    ensures
        final(names).deep_view() == named_changes(changes.deep_view(), 0, old(names).deep_view()),
{
    let ghost all = changes.deep_view();
    let ghost whole = named_changes(all, 0, names.deep_view());
    let mut i: usize = 0;
    while i < changes.len()
        invariant
            i <= changes@.len(),
            all == changes.deep_view(),
            named_changes(all, i as int, names.deep_view()) == whole,
        decreases changes@.len() - i,
    {
        assert(all[i as int] == changes@[i as int]@);
        assoc::add_name(names, changes[i].table.as_str());
        i += 1;
    }
}

/// One command on a related table. Commands of the prepared prefix have been checked before.
#[verifier::opaque]
pub open spec fn walk_step(
    w: WalkModel,
    c: CommandModel,
    in_prefix: bool,
    keys: Seq<ForeignKeyModel>,
    schemas: TablesModel,
    cx: ContextModel,
) -> Result<WalkModel, Seq<char>> {
    let initial = if !w.started && !in_prefix {
        w.related
    } else {
        w.initial
    };
    let started = w.started || !in_prefix;
    match referential::sourced(c, schemas, w.related, cx) {
        Err(e) => Err(e),
        Ok((related, n, changes)) => {
            let changed = if n > 0 {
                assoc::with_name(w.changed, (commands::rows_target(c)->0).1)
            } else {
                w.changed
            };
            let affected = w.affected.saturating_add(n);
            if in_prefix {
                Ok(
                    WalkModel {
                        related: related,
                        initial: initial,
                        started: started,
                        changed: changed,
                        affected: affected,
                        retained: w.retained,
                    },
                )
            } else {
                match referential::cascaded(
                    CascadeModel {
                        related: related,
                        changed: named_changes(changes, 0, changed),
                        pending: changes,
                    },
                    keys,
                    schemas,
                    cx,
                    0,
                ) {
                    Err(e) => Err(e),
                    Ok(done) => match referential::unmet_from(keys, done.related, initial, 0) {
                        Some(e) => Err(e),
                        None => Ok(
                            WalkModel {
                                related: done.related,
                                initial: initial,
                                started: started,
                                changed: done.changed,
                                affected: affected,
                                retained: w.retained,
                            },
                        ),
                    },
                }
            }
        },
    }
}

impl Walk {
    fn step(
        &mut self,
        c: &WriteCommand,
        in_prefix: bool,
        keys: &Vec<ForeignKeySpec>,
        schemas: &Vec<(String, TableSchema)>,
        cx: &Context,
    ) -> (r: DbResult<()>)
        ensures
            match r {
                Ok(_) => walk_step(
                    old(self)@,
                    c@,
                    in_prefix,
                    keys.deep_view(),
                    schemas.deep_view(),
                    cx@,
                ) == Ok::<WalkModel, Seq<char>>(final(self)@),
                Err(e) => walk_step(
                    old(self)@,
                    c@,
                    in_prefix,
                    keys.deep_view(),
                    schemas.deep_view(),
                    cx@,
                ) == Err::<WalkModel, Seq<char>>(e.message@),
            },
    {
        proof {
            reveal(walk_step);
        }
        if !self.started && !in_prefix {
            self.initial = copy_images(&self.related);
            self.started = true;
        }
        let (n, changes) = match referential::apply_referential_source_command(
            c,
            schemas,
            &mut self.related,
            cx,
        ) {
            Err(e) => {
                return Err(e);
            },
            Ok(out) => out,
        };
        self.affected = self.affected.saturating_add(n);
        if n > 0 {
            match commands::command_table(c) {
                None => {},
                Some(target) => {
                    assoc::add_name(&mut self.changed, target.1.as_str());
                },
            }
        }
        if in_prefix {
            return Ok(());
        }
        name_changes(&changes, &mut self.changed);
        let mut state = Cascade {
            related: copy_images(&self.related),
            changed: row::copy_names(&self.changed),
            pending: changes,
        };
        match referential::apply_referential_actions(&mut state, keys, schemas, cx) {
            Err(e) => {
                return Err(e);
            },
            Ok(_) => {},
        }
        match referential::validate_foreign_key_images(keys, &state.related, &self.initial) {
            Err(e) => {
                return Err(e);
            },
            Ok(_) => {},
        }
        self.related = state.related;
        self.changed = state.changed;
        Ok(())
    }
}

/// The commands from the `at`-th on played: those on other tables are retained.
pub open spec fn walked_from(
    w: WalkModel,
    list: Seq<CommandModel>,
    d: Seq<char>,
    names: Seq<Seq<char>>,
    prefix: nat,
    keys: Seq<ForeignKeyModel>,
    schemas: TablesModel,
    cx: ContextModel,
    at: int,
) -> Result<WalkModel, Seq<char>>
    decreases list.len() - at,
{
    if at < 0 || at >= list.len() {
        Ok(w)
    } else if !is_related(list[at], d, names) {
        walked_from(
            WalkModel { retained: w.retained.push(list[at]), ..w },
            list,
            d,
            names,
            prefix,
            keys,
            schemas,
            cx,
            at + 1,
        )
    } else {
        match walk_step(w, list[at], at < prefix, keys, schemas, cx) {
            Err(e) => Err(e),
            Ok(next) => walked_from(next, list, d, names, prefix, keys, schemas, cx, at + 1),
        }
    }
}

#[verifier::loop_isolation(false)]
fn walk(
    w: &mut Walk,
    list: &Vec<WriteCommand>,
    d: &str,
    names: &Vec<String>,
    prefix: usize,
    keys: &Vec<ForeignKeySpec>,
    schemas: &Vec<(String, TableSchema)>,
    cx: &Context,
) -> (r: DbResult<()>)
    ensures
        match r {
            Ok(_) => walked_from(
                old(w)@,
                list.deep_view(),
                d@,
                names.deep_view(),
                prefix as nat,
                keys.deep_view(),
                schemas.deep_view(),
                cx@,
                0,
            ) == Ok::<WalkModel, Seq<char>>(final(w)@),
            Err(e) => walked_from(
                old(w)@,
                list.deep_view(),
                d@,
                names.deep_view(),
                prefix as nat,
                keys.deep_view(),
                schemas.deep_view(),
                cx@,
                0,
            ) == Err::<WalkModel, Seq<char>>(e.message@),
        },
{
    let ghost all = list.deep_view();
    let ghost whole = walked_from(
        w@,
        all,
        d@,
        names.deep_view(),
        prefix as nat,
        keys.deep_view(),
        schemas.deep_view(),
        cx@,
        0,
    );
    let mut i: usize = 0;
    while i < list.len()
        invariant
            i <= list@.len(),
            all == list.deep_view(),
            walked_from(
                w@,
                all,
                d@,
                names.deep_view(),
                prefix as nat,
                keys.deep_view(),
                schemas.deep_view(),
                cx@,
                i as int,
            ) == whole,
        decreases list@.len() - i,
    {
        assert(all[i as int] == list@[i as int]@);
        if !command_is_related(&list[i], d, names) {
            let ghost before = w@;
            let copy = list[i].clone();
            w.retained.push(copy);
            assert(w@.retained =~= before.retained.push(all[i as int]));
        } else {
            match w.step(&list[i], i < prefix, keys, schemas, cx) {
                Err(e) => {
                    return Err(e);
                },
                Ok(_) => {},
            }
        }
        i += 1;
    }
    Ok(())
}

/// The images of the changed tables from the `at`-th on as commands behind others; the first
/// carries the count of affected rows.
pub open spec fn replacements_from(
    changed: Seq<Seq<char>>,
    related: RelatedModel,
    affected: u64,
    d: Seq<char>,
    at: int,
    done: Seq<CommandModel>,
) -> Seq<CommandModel>
    decreases changed.len() - at,
{
    if at < 0 || at >= changed.len() {
        done
    } else {
        replacements_from(
            changed,
            related,
            affected,
            d,
            at + 1,
            done.push(
                CommandModel::ReplaceRows {
                    database: d,
                    table: changed[at],
                    rows: match assoc::lookup(related, changed[at]) {
                        Some(rows) => rows,
                        None => Seq::empty(),
                    },
                    affected_rows: if at == 0 {
                        affected
                    } else {
                        0
                    },
                },
            ),
        )
    }
}

fn add_replacements(
    out: &mut Vec<WriteCommand>,
    changed: &Vec<String>,
    related: &Vec<(String, Vec<Row>)>,
    affected: u64,
    d: &str,
)
    ensures
        final(out).deep_view() == replacements_from(
            changed.deep_view(),
            related.deep_view(),
            affected,
            d@,
            0,
            old(out).deep_view(),
        ),
{
    let ghost names = changed.deep_view();
    let ghost whole = replacements_from(
        names,
        related.deep_view(),
        affected,
        d@,
        0,
        out.deep_view(),
    );
    let mut i: usize = 0;
    while i < changed.len()
        invariant
            i <= changed@.len(),
            names == changed.deep_view(),
            replacements_from(
                names,
                related.deep_view(),
                affected,
                d@,
                i as int,
                out.deep_view(),
            ) == whole,
        decreases changed@.len() - i,
    {
        assert(names[i as int] == changed@[i as int]@);
        let rows = match assoc::find_entry(related, changed[i].as_str()) {
            Some(k) => {
                assert(related.deep_view()[k as int].1 == related@[k as int].1.deep_view());
                commands::copy_rows(&related[k].1)
            },
            None => {
                let none: Vec<Row> = Vec::new();
                assert(none.deep_view() =~= Seq::empty());
                none
            },
        };
        let c = WriteCommand::ReplaceRows {
            database: text::copy_text(d),
            table: changed[i].clone(),
            rows: rows,
            affected_rows: if i == 0 {
                affected
            } else {
                0
            },
        };
        let ghost model = c@;
        let ghost before = out.deep_view();
        out.push(c);
        assert(out.deep_view() =~= before.push(model));
        i += 1;
    }
}

/// The schemas of a database.
pub open spec fn schemas_of(db: DatabaseModel) -> TablesModel {
    db.tables.map_values(|e: (Seq<char>, TableModel)| (e.0, e.1.schema))
}

/// A request with its commands on related tables of one database replaced by the images of the
/// tables that they and the foreign keys change.
#[verifier::opaque]
pub open spec fn referential_in(
    list: Seq<CommandModel>,
    d: Seq<char>,
    prefix: nat,
    s: StoreModel,
    cx: ContextModel,
) -> Result<Seq<CommandModel>, Seq<char>> {
    match store::database_of(s, d) {
        None => Err(store::unknown_database(d)),
        Some(db) => {
            let schemas = schemas_of(db);
            let keys = all_keys(schemas);
            let names = related_tables(keys);
            if keys.len() == 0 || !any_related(list, d, names) {
                Ok(list)
            } else {
                match images_from(db, names, 0, Seq::empty()) {
                    Err(e) => Err(e),
                    Ok(related) => match walked_from(
                        WalkModel {
                            related: related,
                            initial: related,
                            started: prefix == 0,
                            changed: Seq::empty(),
                            affected: 0,
                            retained: Seq::empty(),
                        },
                        list,
                        d,
                        names,
                        prefix,
                        keys,
                        schemas,
                        cx,
                        0,
                    ) {
                        Err(e) => Err(e),
                        Ok(w) => Ok(
                            replacements_from(
                                w.changed,
                                w.related,
                                w.affected,
                                d,
                                0,
                                w.retained,
                            ),
                        ),
                    },
                }
            }
        },
    }
}

fn prepare_in(
    list: &Vec<WriteCommand>,
    d: &str,
    prefix: usize,
    s: &Store,
    cx: &Context,
) -> (r: DbResult<Vec<WriteCommand>>)
    requires
        s.wf(),
    ensures
        error::outcome(r) == referential_in(list.deep_view(), d@, prefix as nat, s@, cx@),
{
    proof {
        reveal(referential_in);
    }
    let db = match s.database(d) {
        None => {
            return Err(store::unknown_database_error(d));
        },
        Some(db) => db,
    };
    let schemas = db.schemas();
    let keys = collect_keys(&schemas);
    let names = collect_related(&keys);
    assert(keys.deep_view().len() == keys@.len());
    if keys.len() == 0 || !has_related(list, d, &names) {
        return Ok(commands::copy_commands(list));
    }
    let related = match load_images(db, &names) {
        Err(e) => {
            return Err(e);
        },
        Ok(related) => related,
    };
    let mut w = Walk {
        initial: copy_images(&related),
        related: related,
        started: prefix == 0,
        changed: Vec::new(),
        affected: 0,
        retained: Vec::new(),
    };
    assert(w@.changed =~= Seq::empty());
    assert(w@.retained =~= Seq::empty());
    match walk(&mut w, list, d, &names, prefix, &keys, &schemas, cx) {
        Err(e) => Err(e),
        Ok(_) => {
            let mut out = w.retained;
            add_replacements(&mut out, &w.changed, &w.related, w.affected, d);
            Ok(out)
        },
    }
}

/// The databases whose rows the commands from the `at`-th on change, sorted.
pub open spec fn touched_from(list: Seq<CommandModel>, at: int, names: Seq<Seq<char>>) -> Seq<
    Seq<char>,
>
    decreases list.len() - at,
{
    if at < 0 || at >= list.len() {
        names
    } else {
        touched_from(
            list,
            at + 1,
            match commands::rows_target(list[at]) {
                Some((d, _)) => assoc::with_name(names, d),
                None => names,
            },
        )
    }
}

pub open spec fn touched(list: Seq<CommandModel>) -> Seq<Seq<char>> {
    touched_from(list, 0, Seq::empty())
}

pub fn touched_databases(list: &Vec<WriteCommand>) -> (r: Vec<String>)
    ensures
        r.deep_view() == touched(list.deep_view()),
{
    let ghost all = list.deep_view();
    let mut out: Vec<String> = Vec::new();
    let mut i: usize = 0;
    assert(out.deep_view() =~= Seq::empty());
    while i < list.len()
        invariant
            i <= list@.len(),
            all == list.deep_view(),
            touched_from(all, i as int, out.deep_view()) == touched(all),
        decreases list@.len() - i,
    {
        assert(all[i as int] == list@[i as int]@);
        match commands::command_table(&list[i]) {
            None => {},
            Some(target) => {
                assoc::add_name(&mut out, target.0.as_str());
            },
        }
        i += 1;
    }
    out
}

/// A request prepared for the databases from the `at`-th on.
pub open spec fn referential_from(
    list: Seq<CommandModel>,
    names: Seq<Seq<char>>,
    prefix: nat,
    s: StoreModel,
    cx: ContextModel,
    at: int,
) -> Result<Seq<CommandModel>, Seq<char>>
    decreases names.len() - at,
{
    if at < 0 || at >= names.len() {
        Ok(list)
    } else {
        match referential_in(list, names[at], prefix, s, cx) {
            Err(e) => Err(e),
            Ok(next) => referential_from(next, names, prefix, s, cx, at + 1),
        }
    }
}

pub open spec fn with_references(
    list: Seq<CommandModel>,
    prefix: nat,
    s: StoreModel,
    cx: ContextModel,
) -> Result<Seq<CommandModel>, Seq<char>> {
    referential_from(list, touched(list), prefix, s, cx, 0)
}

#[verifier::loop_isolation(false)]
pub fn prepare_referential_commands(
    list: Vec<WriteCommand>,
    prefix: usize,
    s: &Store,
    cx: &Context,
) -> (r: DbResult<Vec<WriteCommand>>)
    requires
        s.wf(),
    ensures
        error::outcome(r) == with_references(list.deep_view(), prefix as nat, s@, cx@),
{
    let names = touched_databases(&list);
    let ghost all = names.deep_view();
    let ghost whole = with_references(list.deep_view(), prefix as nat, s@, cx@);
    let mut out = list;
    let mut i: usize = 0;
    while i < names.len()
        invariant
            i <= names@.len(),
            s.wf(),
            all == names.deep_view(),
            referential_from(out.deep_view(), all, prefix as nat, s@, cx@, i as int) == whole,
        decreases names@.len() - i,
    {
        assert(all[i as int] == names@[i as int]@);
        match prepare_in(&out, names[i].as_str(), prefix, s, cx) {
            Err(e) => {
                return Err(e);
            },
            Ok(next) => {
                out = next;
            },
        }
        i += 1;
    }
    Ok(out)
}

// ---------------------------------------------------------------------------------------------
// Preparing a request
// ---------------------------------------------------------------------------------------------
/// Whether two commands bring rows to the same table in the same manner.
pub open spec fn continues(a: CommandModel, b: CommandModel) -> bool {
    match (a, b) {
        (
            CommandModel::Insert { database: d, table: t, .. },
            CommandModel::Insert { database: d2, table: t2, .. },
        ) => d == d2 && t == t2,
        (
            CommandModel::Upsert { database: d, table: t, .. },
            CommandModel::Upsert { database: d2, table: t2, .. },
        ) => d == d2 && t == t2,
        _ => false,
    }
}

pub open spec fn stretch_end(list: Seq<CommandModel>, c: CommandModel, at: int) -> int
    decreases list.len() - at,
{
    if 0 <= at < list.len() && continues(c, list[at]) {
        stretch_end(list, c, at + 1)
    } else {
        at
    }
}

pub proof fn stretch_bounds(list: Seq<CommandModel>, c: CommandModel, at: int)
    requires
        0 <= at <= list.len(),
    ensures
        at <= stretch_end(list, c, at) <= list.len(),
    decreases list.len() - at,
{
    if at < list.len() && continues(c, list[at]) {
        stretch_bounds(list, c, at + 1);
    }
}

fn commands_continue(a: &WriteCommand, b: &WriteCommand) -> (r: bool)
    ensures
        r == continues(a@, b@),
{
    match (a, b) {
        (
            WriteCommand::Insert { database: d, table: t, row: _ },
            WriteCommand::Insert { database: d2, table: t2, row: _ },
        ) => text::text_equal(d.as_str(), d2.as_str()) && text::text_equal(
            t.as_str(),
            t2.as_str(),
        ),
        (
            WriteCommand::Upsert { database: d, table: t, row: _, update_columns: _, ignore: _ },
            WriteCommand::Upsert { database: d2, table: t2, row: _, update_columns: _, ignore: _ },
        ) => text::text_equal(d.as_str(), d2.as_str()) && text::text_equal(
            t.as_str(),
            t2.as_str(),
        ),
        _ => false,
    }
}

fn find_stretch(list: &Vec<WriteCommand>, at: usize) -> (r: usize)
    requires
        at < list@.len(),
    ensures
        at < r <= list@.len(),
        r == stretch_end(list.deep_view(), list@[at as int]@, at + 1),
{
    let ghost all = list.deep_view();
    let ghost c = list@[at as int]@;
    let total: usize = list.len();
    assert(at + 1 <= total);
    let mut i: usize = at + 1;
    while i < list.len() && commands_continue(&list[at], &list[i])
        invariant
            at < i <= list@.len(),
            all == list.deep_view(),
            c == list@[at as int]@,
            stretch_end(all, c, i as int) == stretch_end(all, c, at + 1),
        decreases list@.len() - i,
    {
        assert(all[i as int] == list@[i as int]@);
        i += 1;
    }
    i
}

/// A command with another row.
pub open spec fn with_row(c: CommandModel, r: RowModel) -> CommandModel {
    match c {
        CommandModel::Insert { database, table, .. } => CommandModel::Insert {
            database: database,
            table: table,
            row: r,
        },
        CommandModel::Upsert { database, table, update_columns, ignore, .. } => {
            CommandModel::Upsert {
                database: database,
                table: table,
                row: r,
                update_columns: update_columns,
                ignore: ignore,
            }
        },
        _ => c,
    }
}

fn replace_row(c: &WriteCommand, r: Row) -> (res: WriteCommand)
    ensures
        res@ == with_row(c@, r@),
{
    match c {
        WriteCommand::Insert { database, table, row: _ } => WriteCommand::Insert {
            database: database.clone(),
            table: table.clone(),
            row: r,
        },
        WriteCommand::Upsert { database, table, row: _, update_columns, ignore } => {
            WriteCommand::Upsert {
                database: database.clone(),
                table: table.clone(),
                row: r,
                update_columns: row::copy_names(update_columns),
                ignore: *ignore,
            }
        },
        _ => c.clone(),
    }
}

/// The commands from `at` on, each with the row at its place.
pub open spec fn with_rows(list: Seq<CommandModel>, at: int, rows: Seq<RowModel>) -> Seq<
    CommandModel,
> {
    Seq::new(rows.len(), |i: int| with_row(list[at + i], rows[i]))
}

fn add_with_rows(out: &mut Vec<WriteCommand>, list: &Vec<WriteCommand>, at: usize, rows: &Vec<Row>)
    requires
        at + rows@.len() <= list@.len(),
    ensures
        final(out).deep_view() == old(out).deep_view() + with_rows(
            list.deep_view(),
            at as int,
            rows.deep_view(),
        ),
{
    let ghost start = out.deep_view();
    let ghost more = with_rows(list.deep_view(), at as int, rows.deep_view());
    let mut i: usize = 0;
    assert(start + more.take(0) =~= start);
    while i < rows.len()
        invariant
            i <= rows@.len(),
            at + rows@.len() <= list@.len(),
            more == with_rows(list.deep_view(), at as int, rows.deep_view()),
            out.deep_view() == start + more.take(i as int),
        decreases rows@.len() - i,
    {
        let ghost before = out.deep_view();
        let total: usize = list.len();
        assert(at + i < total);
        let c = replace_row(&list[at + i], rows[i].clone());
        let ghost model = c@;
        out.push(c);
        assert(model == more[i as int]);
        assert(out.deep_view() =~= before.push(model));
        assert(out.deep_view() =~= start + more.take(i + 1));
        i += 1;
    }
    assert(more.take(i as int) =~= more);
}

/// Completing rows keeps how many they are.
/// Rows that can be stored are as many as were given.
pub proof fn materialized_len(
    rows: Seq<RowModel>,
    s: SchemaModel,
    m: MomentModel,
    at: int,
    done: Seq<RowModel>,
)
    requires
        0 <= at <= rows.len(),
        images::materialized_from(rows, s, m, at, done) is Ok,
    ensures
        images::materialized_from(rows, s, m, at, done)->Ok_0.len() == done.len() + rows.len() - at,
    decreases rows.len() - at,
{
    if at < rows.len() {
        let r = values::materialized(rows[at], s, m)->Ok_0;
        materialized_len(rows, s, m, at + 1, done.push(r));
    }
}

proof fn numbered_len(
    rows: Seq<RowModel>,
    column: Seq<char>,
    at: int,
    done: Seq<RowModel>,
    last: u64,
    next: u64,
)
    requires
        0 <= at <= rows.len(),
        images::numbered_from(rows, column, at, done, last, next) is Ok,
    ensures
        images::numbered_from(rows, column, at, done, last, next)->Ok_0.rows.len() == done.len()
            + rows.len() - at,
    decreases rows.len() - at,
{
    if at < rows.len() {
        if images::wants_number(rows[at], column) {
            numbered_len(
                rows,
                column,
                at + 1,
                done.push(
                    rows[at].with(
                        column,
                        vstd::utf8::encode_utf8(crate::num::decimal(next as nat)),
                    ),
                ),
                if last == 0 {
                    next
                } else {
                    last
                },
                (next + 1) as u64,
            );
        } else {
            match rows[at].get(column) {
                None => numbered_len(rows, column, at + 1, done.push(rows[at]), last, next),
                Some(value) => {
                    let n = images::number_in(value)->0;
                    numbered_len(
                        rows,
                        column,
                        at + 1,
                        done.push(rows[at]),
                        last,
                        images::larger(next, (n as u64).saturating_add(1)),
                    );
                },
            }
        }
    }
}

/// Rows that are numbered and completed are as many as were given.
pub proof fn reserved_len(db: DatabaseModel, t: Seq<char>, rows: Seq<RowModel>, m: MomentModel)
    requires
        database::rows_reserved(db, t, rows, m).1 is Ok,
    ensures
        (database::rows_reserved(db, t, rows, m).1->Ok_0).0.len() == rows.len(),
{
    reveal(database::rows_reserved);
    let found = database::table_of(db, t)->0;
    let n = images::numbered(found.schema, found.next_id, rows)->Ok_0;
    match crate::sqltext::auto_increment(found.schema) {
        None => {},
        Some(column) => {
            numbered_len(
                rows,
                column,
                0,
                Seq::empty(),
                0,
                match found.next_id {
                    Some(x) => x,
                    None => 1,
                },
            );
        },
    }
    materialized_len(n.rows, found.schema, m, 0, Seq::empty());
}

/// What a stretch of rows comes to: rows for a table that the request creates are completed by its
/// schema, and others are numbered and completed by their database.
#[verifier::opaque]
pub open spec fn stretch_rows(
    s: StoreModel,
    created: Seq<(Seq<char>, Seq<char>, SchemaModel)>,
    c: CommandModel,
    rows: Seq<RowModel>,
    cx: ContextModel,
) -> (StoreModel, Result<(Seq<RowModel>, u64), Seq<char>>) {
    let (d, t) = commands::rows_target(c)->0;
    match pairs::pair_value(created, d, t) {
        Some(schema) => if c is Insert {
            (
                s,
                match images::materialized_all(rows, schema, cx.moment) {
                    Err(e) => Err(e),
                    Ok(full) => Ok((full, 0u64)),
                },
            )
        } else {
            reserved_in(s, d, t, rows, cx)
        },
        None => reserved_in(s, d, t, rows, cx),
    }
}

pub open spec fn reserved_in(
    s: StoreModel,
    d: Seq<char>,
    t: Seq<char>,
    rows: Seq<RowModel>,
    cx: ContextModel,
) -> (StoreModel, Result<(Seq<RowModel>, u64), Seq<char>>) {
    match store::database_of(s, d) {
        None => (s, Err(store::unknown_database(d))),
        Some(db) => {
            let (after, r) = database::rows_reserved(db, t, rows, cx.moment);
            (assoc::with_entry(s, d, after), r)
        },
    }
}

fn reserve_in(s: &mut Store, d: &str, t: &str, rows: &Vec<Row>, cx: &Context) -> (r: DbResult<
    (Vec<Row>, u64),
>)
    requires
        old(s).wf(),
    ensures
        final(s).wf(),
        final(s)@ == reserved_in(old(s)@, d@, t@, rows.deep_view(), cx@).0,
        error::outcome(r) == reserved_in(old(s)@, d@, t@, rows.deep_view(), cx@).1,
        r matches Ok(out) ==> out.0@.len() == rows@.len(),
{
    let ghost before = *s;
    match s.find(d) {
        None => Err(store::unknown_database_error(d)),
        Some(i) => {
            let r = s.databases[i].1.prepare_rows_for_wal(t, rows, &cx.moment);
            proof {
                store::store_changed_at(before, *s, i as int);
                if r is Ok {
                    reserved_len(
                        before.databases@[i as int].1@,
                        t@,
                        rows.deep_view(),
                        cx@.moment,
                    );
                    assert((r->Ok_0).0.deep_view().len() == (r->Ok_0).0@.len());
                    assert(rows.deep_view().len() == rows@.len());
                }
            }
            r
        },
    }
}

fn prepare_stretch(
    s: &mut Store,
    created: &Vec<(String, String, TableSchema)>,
    c: &WriteCommand,
    rows: &Vec<Row>,
    cx: &Context,
) -> (r: DbResult<(Vec<Row>, u64)>)
    requires
        old(s).wf(),
        commands::rows_target(c@) is Some,
    ensures
        final(s).wf(),
        final(s)@ == stretch_rows(old(s)@, created.deep_view(), c@, rows.deep_view(), cx@).0,
        error::outcome(r) == stretch_rows(
            old(s)@,
            created.deep_view(),
            c@,
            rows.deep_view(),
            cx@,
        ).1,
        r matches Ok(out) ==> out.0@.len() == rows@.len(),
{
    proof {
        reveal(stretch_rows);
    }
    let (d, t) = match commands::command_table(c) {
        None => {
            assert(false);
            return Err(DbError::of(""));
        },
        Some(target) => target,
    };
    let insert = match c {
        WriteCommand::Insert { .. } => true,
        _ => false,
    };
    match pairs::find_pair(created, d.as_str(), t.as_str()) {
        Some(i) => {
            if insert {
                assert(created.deep_view()[i as int].2 == created@[i as int].2@);
                match images::materialize_rows(rows, &created[i].2, &cx.moment) {
                    Err(e) => Err(e),
                    Ok(full) => {
                        proof {
                            materialized_len(
                                rows.deep_view(),
                                created@[i as int].2@,
                                cx@.moment,
                                0,
                                Seq::empty(),
                            );
                            assert(full.deep_view().len() == full@.len());
                            assert(rows.deep_view().len() == rows@.len());
                        }
                        Ok((full, 0))
                    },
                }
            } else {
                reserve_in(s, d.as_str(), t.as_str(), rows, cx)
            }
        },
        None => reserve_in(s, d.as_str(), t.as_str(), rows, cx),
    }
}

/// Whether the number that a stretch generated is the request's: one of its rows is not ignored
/// where it is there already.
pub open spec fn counts_number(list: Seq<CommandModel>, from: int, to: int) -> bool {
    exists|i: int|
        from <= i < to && !(#[trigger] list[i] matches CommandModel::Upsert { ignore, .. } && ignore)
}

fn stretch_counts(list: &Vec<WriteCommand>, from: usize, to: usize) -> (r: bool)
    requires
        from <= to <= list@.len(),
    ensures
        r == counts_number(list.deep_view(), from as int, to as int),
{
    let ghost all = list.deep_view();
    let mut i: usize = from;
    while i < to
        invariant
            from <= i <= to <= list@.len(),
            all == list.deep_view(),
            forall|j: int|
                from <= j < i ==> ((#[trigger] all[j]) matches CommandModel::Upsert { ignore, .. }
                    && ignore),
        decreases to - i,
    {
        assert(all[i as int] == list@[i as int]@);
        let ignored = match &list[i] {
            WriteCommand::Upsert { database: _, table: _, row: _, update_columns: _, ignore } => {
                *ignore
            },
            _ => false,
        };
        if !ignored {
            return true;
        }
        i += 1;
    }
    false
}

/// What the commands so far have come to.
#[verifier::ext_equal]
pub struct DraftModel {
    pub prepared: Seq<CommandModel>,
    pub last_id: u64,
    pub foreign_keys: bool,
    /// The tables that the request creates.
    pub created: Seq<(Seq<char>, Seq<char>, SchemaModel)>,
}

pub struct Draft {
    pub prepared: Vec<WriteCommand>,
    pub last_id: u64,
    pub foreign_keys: bool,
    pub created: Vec<(String, String, TableSchema)>,
}

impl View for Draft {
    type V = DraftModel;

    open spec fn view(&self) -> DraftModel {
        DraftModel {
            prepared: self.prepared.deep_view(),
            last_id: self.last_id,
            foreign_keys: self.foreign_keys,
            created: self.created.deep_view(),
        }
    }
}

/// The commands from the `at`-th on drafted.
pub open spec fn drafted_from(
    s: StoreModel,
    draft: DraftModel,
    list: Seq<CommandModel>,
    cx: ContextModel,
    at: int,
) -> (StoreModel, Result<DraftModel, Seq<char>>)
    decreases list.len() - at,
{
    if at < 0 || at >= list.len() {
        (s, Ok(draft))
    } else {
        let c = list[at];
        match c {
            CommandModel::CreateTable { database, schema } => drafted_from(
                s,
                DraftModel {
                    prepared: draft.prepared.push(c),
                    created: pairs::with_pair(draft.created, database, schema.name, schema),
                    ..draft
                },
                list,
                cx,
                at + 1,
            ),
            CommandModel::ExpressionUpdate { .. } => (
                s,
                Err(
                    "Expression UPDATE must be materialized under a wire lock before WAL append"@,
                ),
            ),
            CommandModel::ForeignKeyChecksDisabled => drafted_from(
                s,
                DraftModel { foreign_keys: false, ..draft },
                list,
                cx,
                at + 1,
            ),
            _ => if c is Insert || c is Upsert {
                let end = stretch_end(list, c, at + 1);
                let (after, r) = stretch_rows(
                    s,
                    draft.created,
                    c,
                    apply::rows_of(list, at, end),
                    cx,
                );
                proof {
                    stretch_bounds(list, c, at + 1);
                }
                match r {
                    Err(e) => (after, Err(e)),
                    Ok((rows, id)) => drafted_from(
                        after,
                        DraftModel {
                            prepared: draft.prepared + with_rows(list, at, rows),
                            last_id: if draft.last_id == 0 && counts_number(list, at, end) {
                                id
                            } else {
                                draft.last_id
                            },
                            ..draft
                        },
                        list,
                        cx,
                        end,
                    ),
                }
            } else {
                drafted_from(
                    s,
                    DraftModel { prepared: draft.prepared.push(c), ..draft },
                    list,
                    cx,
                    at + 1,
                )
            },
        }
    }
}

fn stretch_of(list: &Vec<WriteCommand>, at: usize, end: usize) -> (r: Vec<Row>)
    requires
        at <= end <= list@.len(),
    ensures
        r.deep_view() == apply::rows_of(list.deep_view(), at as int, end as int),
        r@.len() == end - at,
{
    let ghost all = list.deep_view();
    let mut out: Vec<Row> = Vec::new();
    let mut i: usize = at;
    assert(out.deep_view() =~= apply::rows_of(all, at as int, i as int));
    while i < end
        invariant
            at <= i <= end <= list@.len(),
            all == list.deep_view(),
            out@.len() == i - at,
            out.deep_view() == apply::rows_of(all, at as int, i as int),
        decreases end - i,
    {
        let ghost before = out.deep_view();
        let one = apply::command_row(&list[i]);
        out.push(one);
        assert(out.deep_view() =~= before.push(apply::row_of(all[i as int])));
        assert(apply::rows_of(all, at as int, i + 1) =~= before.push(
            apply::row_of(all[i as int]),
        ));
        i += 1;
    }
    out
}

#[verifier::loop_isolation(false)]
#[verifier::rlimit(40)]
fn draft_commands(s: &mut Store, draft: &mut Draft, list: &Vec<WriteCommand>, cx: &Context) -> (r:
    DbResult<()>)
    requires
        old(s).wf(),
    ensures
        final(s).wf(),
        final(s)@ == drafted_from(old(s)@, old(draft)@, list.deep_view(), cx@, 0).0,
        match r {
            Ok(_) => drafted_from(old(s)@, old(draft)@, list.deep_view(), cx@, 0).1 == Ok::<
                DraftModel,
                Seq<char>,
            >(final(draft)@),
            Err(e) => drafted_from(old(s)@, old(draft)@, list.deep_view(), cx@, 0).1 == Err::<
                DraftModel,
                Seq<char>,
            >(e.message@),
        },
{
    let ghost all = list.deep_view();
    let ghost whole = drafted_from(s@, draft@, all, cx@, 0);
    let mut at: usize = 0;
    while at < list.len()
        invariant
            at <= list@.len(),
            all == list.deep_view(),
            s.wf(),
            drafted_from(s@, draft@, all, cx@, at as int) == whole,
        decreases list@.len() - at,
    {
        let ghost before = draft@;
        assert(all[at as int] == list@[at as int]@);
        let brings = match &list[at] {
            WriteCommand::Insert { .. } => true,
            WriteCommand::Upsert { .. } => true,
            _ => false,
        };
        if brings {
            let end = find_stretch(list, at);
            let rows = stretch_of(list, at, end);
            match prepare_stretch(s, &draft.created, &list[at], &rows, cx) {
                Err(e) => {
                    return Err(e);
                },
                Ok(out) => {
                    if draft.last_id == 0 && stretch_counts(list, at, end) {
                        draft.last_id = out.1;
                    }
                    add_with_rows(&mut draft.prepared, list, at, &out.0);
                },
            }
            at = end;
        } else {
            match &list[at] {
                WriteCommand::CreateTable { database, schema } => {
                    let copy = schema.clone();
                    pairs::set_pair(
                        &mut draft.created,
                        database.as_str(),
                        schema.name.as_str(),
                        copy,
                    );
                    let c = list[at].clone();
                    draft.prepared.push(c);
                    assert(draft@.prepared =~= before.prepared.push(all[at as int]));
                },
                WriteCommand::ExpressionUpdate { .. } => {
                    return Err(
                        DbError::of(
                            "Expression UPDATE must be materialized under a wire lock before WAL append",
                        ),
                    );
                },
                WriteCommand::ForeignKeyChecksDisabled => {
                    draft.foreign_keys = false;
                },
                _ => {
                    let c = list[at].clone();
                    draft.prepared.push(c);
                    assert(draft@.prepared =~= before.prepared.push(all[at as int]));
                },
            }
            at += 1;
        }
    }
    Ok(())
}

pub open spec fn empty_draft() -> DraftModel {
    DraftModel {
        prepared: Seq::empty(),
        last_id: 0,
        foreign_keys: true,
        created: Seq::empty(),
    }
}

/// A request as it is logged, and the first number that it generated. The first `prefix` commands
/// were prepared before.
pub open spec fn prepared(
    s: StoreModel,
    list: Seq<CommandModel>,
    prefix: nat,
    cx: ContextModel,
) -> (StoreModel, Result<(Seq<CommandModel>, u64), Seq<char>>) {
    let (after, r) = drafted_from(s, empty_draft(), list, cx, 0);
    match r {
        Err(e) => (after, Err(e)),
        Ok(draft) => if draft.foreign_keys {
            (
                after,
                match with_references(draft.prepared, prefix, after, cx) {
                    Err(e) => Err(e),
                    Ok(out) => Ok((out, draft.last_id)),
                },
            )
        } else {
            (after, Ok((draft.prepared, draft.last_id)))
        },
    }
}

pub fn prepare_write_commands_with_prefix(
    s: &mut Store,
    list: &Vec<WriteCommand>,
    prefix: usize,
    cx: &Context,
) -> (r: DbResult<(Vec<WriteCommand>, u64)>)
    requires
        old(s).wf(),
    ensures
        final(s).wf(),
        final(s)@ == prepared(old(s)@, list.deep_view(), prefix as nat, cx@).0,
        error::outcome(r) == prepared(old(s)@, list.deep_view(), prefix as nat, cx@).1,
{
    let mut draft = Draft {
        prepared: Vec::new(),
        last_id: 0,
        foreign_keys: true,
        created: Vec::new(),
    };
    assert(draft@.prepared =~= Seq::empty());
    assert(draft@.created =~= Seq::empty());
    assert(draft@ =~= empty_draft());
    match draft_commands(s, &mut draft, list, cx) {
        Err(e) => Err(e),
        Ok(_) => {
            if draft.foreign_keys {
                match prepare_referential_commands(draft.prepared, prefix, s, cx) {
                    Err(e) => Err(e),
                    Ok(out) => Ok((out, draft.last_id)),
                }
            } else {
                Ok((draft.prepared, draft.last_id))
            }
        },
    }
}

pub fn prepare_write_commands(s: &mut Store, list: &Vec<WriteCommand>, cx: &Context) -> (r: DbResult<
    (Vec<WriteCommand>, u64),
>)
    requires
        old(s).wf(),
    ensures
        final(s).wf(),
        final(s)@ == prepared(old(s)@, list.deep_view(), 0, cx@).0,
        error::outcome(r) == prepared(old(s)@, list.deep_view(), 0, cx@).1,
{
    prepare_write_commands_with_prefix(s, list, 0, cx)
}

/// Prepares and validates the statements of a transaction, of which the first `prefix` were
/// prepared before.
pub fn prepare_transaction(s: &mut Store, list: &Vec<WriteCommand>, prefix: usize, cx: &Context) -> (r:
    DbResult<PreparedTransactionBatch>)
    requires
        old(s).wf(),
    ensures
        final(s).wf(),
        final(s)@ == prepared(old(s)@, list.deep_view(), prefix as nat, cx@).0,
        match prepared(old(s)@, list.deep_view(), prefix as nat, cx@).1 {
            Err(e) => r matches Err(m) && m.message@ == e,
            Ok((out, id)) => match batch::refused(out, final(s)@, cx@) {
                Some(e) => r matches Err(m) && m.message@ == e,
                None => r matches Ok(b) && b.commands.deep_view() == out && b.last_insert_id == id,
            },
        },
{
    match prepare_write_commands_with_prefix(s, list, prefix, cx) {
        Err(e) => Err(e),
        Ok(out) => match batch::validate_write_batch(&out.0, s, cx) {
            Err(e) => Err(e),
            Ok(_) => Ok(PreparedTransactionBatch { commands: out.0, last_insert_id: out.1 }),
        },
    }
}

} // verus!
