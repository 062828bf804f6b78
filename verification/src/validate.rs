//! Validating write commands before they are logged: a batch is played against a shadow of the
//! catalog, and of the rows that it needs.
use crate::altered;
use crate::assoc;
use crate::checks;
use crate::commands;
use crate::database;
use crate::database::{DatabaseModel, ProcedureList};
use crate::error;
use crate::error::{DbError, DbResult};
use crate::images;
use crate::index;
use crate::pairs;
use crate::predicate;
use crate::row;
use crate::row::{Row, RowModel};
use crate::schema;
use crate::schema::{KeyModel, ProcedureDefinition, SchemaModel, TableSchema};
use crate::store;
use crate::store::{Store, StoreModel};
use crate::table::TableModel;
use crate::text;
use crate::values;
use vstd::prelude::*;

verus! {

pub type TablesModel = Seq<(Seq<char>, SchemaModel)>;

pub type CatalogModel = Seq<(Seq<char>, TablesModel)>;

pub type ImagesModel = Seq<(Seq<char>, Seq<char>, Seq<RowModel>)>;

pub type KeysModel = Seq<(Seq<char>, Seq<char>, Seq<(Seq<char>, Seq<Seq<u8>>)>)>;

/// The schemas of a store.
pub open spec fn catalog_of(s: StoreModel) -> CatalogModel {
    s.map_values(
        |e: (Seq<char>, DatabaseModel)|
            (e.0, e.1.tables.map_values(|t: (Seq<char>, TableModel)| (t.0, t.1.schema))),
    )
}

/// The procedures of a store.
pub open spec fn procedures_of(s: StoreModel) -> Seq<(Seq<char>, ProcedureList)> {
    s.map_values(|e: (Seq<char>, DatabaseModel)| (e.0, e.1.procedures))
}

pub fn copy_catalog(s: &Store) -> (r: Vec<(String, Vec<(String, TableSchema)>)>)
    requires
        s.wf(),
    ensures
        r.deep_view() == catalog_of(s@),
{
    let ghost target = catalog_of(s@);
    let mut out: Vec<(String, Vec<(String, TableSchema)>)> = Vec::new();
    let mut i: usize = 0;
    assert(out.deep_view() =~= target.take(0));
    while i < s.databases.len()
        invariant
            i <= s.databases@.len(),
            s.wf(),
            target == catalog_of(s@),
            out.deep_view() == target.take(i as int),
        decreases s.databases@.len() - i,
    {
        let ghost before = out.deep_view();
        assert(s.databases@[i as int].1.wf());
        let tables = s.databases[i].1.schemas();
        out.push((s.databases[i].0.clone(), tables));
        assert(s@[i as int] == (s.databases@[i as int].0@, s.databases@[i as int].1@));
        assert(out.deep_view() =~= before.push(target[i as int]));
        assert(target.take(i + 1) =~= target.take(i as int).push(target[i as int]));
        i += 1;
    }
    assert(target.take(i as int) =~= target);
    out
}

pub fn copy_routines(s: &Store) -> (r: Vec<(String, Vec<(String, ProcedureDefinition)>)>)
    ensures
        r.deep_view() == procedures_of(s@),
{
    let ghost target = procedures_of(s@);
    let mut out: Vec<(String, Vec<(String, ProcedureDefinition)>)> = Vec::new();
    let mut i: usize = 0;
    assert(out.deep_view() =~= target.take(0));
    while i < s.databases.len()
        invariant
            i <= s.databases@.len(),
            target == procedures_of(s@),
            out.deep_view() == target.take(i as int),
        decreases s.databases@.len() - i,
    {
        let ghost before = out.deep_view();
        let list = s.databases[i].1.procedures_copy();
        out.push((s.databases[i].0.clone(), list));
        assert(s@[i as int] == (s.databases@[i as int].0@, s.databases@[i as int].1@));
        assert(out.deep_view() =~= before.push(target[i as int]));
        assert(target.take(i + 1) =~= target.take(i as int).push(target[i as int]));
        i += 1;
    }
    assert(target.take(i as int) =~= target);
    out
}

/// The schema of a table in a catalog.
pub open spec fn schema_in(c: CatalogModel, d: Seq<char>, t: Seq<char>) -> Option<SchemaModel> {
    match assoc::lookup(c, d) {
        Some(tables) => assoc::lookup(tables, t),
        None => None,
    }
}

pub fn find_schema<'a>(
    c: &'a Vec<(String, Vec<(String, TableSchema)>)>,
    d: &str,
    t: &str,
) -> (r: Option<&'a TableSchema>)
    ensures
        r is Some == schema_in(c.deep_view(), d@, t@) is Some,
        r matches Some(s) ==> schema_in(c.deep_view(), d@, t@) == Some(s@),
{
    match assoc::find_entry(c, d) {
        None => None,
        Some(i) => {
            assert(c.deep_view()[i as int].1 == c@[i as int].1.deep_view());
            match assoc::find_entry(&c[i].1, t) {
                None => None,
                Some(k) => {
                    assert(c@[i as int].1.deep_view()[k as int].1 == c@[i as int].1@[k as int].1@);
                    Some(&c[i].1[k].1)
                },
            }
        },
    }
}

/// What a batch has come to so far.
#[verifier::ext_equal]
pub struct ShadowModel {
    pub catalog: CatalogModel,
    pub procedures: Seq<(Seq<char>, ProcedureList)>,
    /// The keys that the batch brings.
    pub keys: KeysModel,
    /// The rows of tables with checks.
    pub checked: ImagesModel,
    /// The rows of tables that the batch alters.
    pub altered: ImagesModel,
    /// Databases and tables whose stored rows no longer count.
    pub reset_databases: Seq<Seq<char>>,
    pub reset_tables: Seq<(Seq<char>, Seq<char>)>,
}

pub struct Shadow {
    pub catalog: Vec<(String, Vec<(String, TableSchema)>)>,
    pub procedures: Vec<(String, Vec<(String, ProcedureDefinition)>)>,
    pub keys: Vec<(String, String, Vec<(String, Vec<Vec<u8>>)>)>,
    pub checked: Vec<(String, String, Vec<Row>)>,
    pub altered: Vec<(String, String, Vec<Row>)>,
    pub reset_databases: Vec<String>,
    pub reset_tables: Vec<(String, String)>,
}

impl View for Shadow {
    type V = ShadowModel;

    open spec fn view(&self) -> ShadowModel {
        ShadowModel {
            catalog: self.catalog.deep_view(),
            procedures: self.procedures.deep_view(),
            keys: self.keys.deep_view(),
            checked: self.checked.deep_view(),
            altered: self.altered.deep_view(),
            reset_databases: self.reset_databases.deep_view(),
            reset_tables: self.reset_tables.deep_view(),
        }
    }
}

/// The shadow of a store before a batch.
pub open spec fn shadow_of(s: StoreModel) -> ShadowModel {
    ShadowModel {
        catalog: catalog_of(s),
        procedures: procedures_of(s),
        keys: Seq::empty(),
        checked: Seq::empty(),
        altered: Seq::empty(),
        reset_databases: Seq::empty(),
        reset_tables: Seq::empty(),
    }
}

pub open spec fn has_checks(s: SchemaModel) -> bool {
    checks::checks(s).len() > 0
}

pub fn schema_has_checks(s: &TableSchema) -> (r: bool)
    ensures
        r == has_checks(s@),
{
    let list = checks::table_check_constraints(s);
    assert(list.deep_view().len() == list@.len());
    list.len() > 0
}

// ---------------------------------------------------------------------------------------------
// Rows
// ---------------------------------------------------------------------------------------------
/// The rows of a table as the batch sees them: those of its image, and otherwise the stored rows,
/// unless these no longer count.
pub open spec fn image(
    images: ImagesModel,
    sh: ShadowModel,
    s: StoreModel,
    d: Seq<char>,
    t: Seq<char>,
) -> Result<Seq<RowModel>, Seq<char>> {
    match pairs::pair_value(images, d, t) {
        Some(rows) => Ok(rows),
        None => if sh.reset_databases.contains(d) || sh.reset_tables.contains((d, t)) {
            Ok(Seq::empty())
        } else {
            match store::database_of(s, d) {
                None => Err(store::unknown_database(d)),
                Some(db) => match database::table_of(db, t) {
                    None => Err(database::no_table(t)),
                    Some(found) => Ok(found.rows()),
                },
            }
        },
    }
}

pub fn load_image(
    images: &Vec<(String, String, Vec<Row>)>,
    sh: &Shadow,
    s: &Store,
    d: &str,
    t: &str,
) -> (r: DbResult<Vec<Row>>)
    requires
        s.wf(),
    ensures
        error::outcome(r) == image(images.deep_view(), sh@, s@, d@, t@),
{
    match pairs::find_pair(images, d, t) {
        Some(i) => {
            assert(images.deep_view()[i as int].2 == images@[i as int].2.deep_view());
            Ok(commands::copy_rows(&images[i].2))
        },
        None => {
            if assoc::has_name(&sh.reset_databases, d) || pairs::has_pair(&sh.reset_tables, d, t) {
                let none: Vec<Row> = Vec::new();
                assert(none.deep_view() =~= Seq::empty());
                Ok(none)
            } else {
                match s.database(d) {
                    None => Err(store::unknown_database_error(d)),
                    Some(db) => db.scan_table(t),
                }
            }
        },
    }
}

// ---------------------------------------------------------------------------------------------
// Keys
// ---------------------------------------------------------------------------------------------
/// The keys that the batch brings for a constraint.
pub open spec fn brought(keys: KeysModel, d: Seq<char>, t: Seq<char>, name: Seq<char>) -> Seq<Seq<u8>> {
    match pairs::pair_value(keys, d, t) {
        None => Seq::empty(),
        Some(list) => match assoc::lookup(list, name) {
            None => Seq::empty(),
            Some(found) => found,
        },
    }
}

/// The keys of the batch with those for a constraint set.
pub open spec fn with_brought(
    keys: KeysModel,
    d: Seq<char>,
    t: Seq<char>,
    name: Seq<char>,
    list: Seq<Seq<u8>>,
) -> KeysModel {
    pairs::with_pair(
        keys,
        d,
        t,
        assoc::with_entry(
            match pairs::pair_value(keys, d, t) {
                None => Seq::empty(),
                Some(found) => found,
            },
            name,
            list,
        ),
    )
}

fn copy_brought(
    keys: &Vec<(String, String, Vec<(String, Vec<Vec<u8>>)>)>,
    d: &str,
    t: &str,
    name: &str,
) -> (r: Vec<Vec<u8>>)
    ensures
        r.deep_view() == brought(keys.deep_view(), d@, t@, name@),
{
    match pairs::find_pair(keys, d, t) {
        Some(i) => {
            assert(keys.deep_view()[i as int].2 == keys@[i as int].2.deep_view());
            match assoc::find_entry(&keys[i].2, name) {
                Some(k) => {
                    assert(keys@[i as int].2.deep_view()[k as int].1
                        == keys@[i as int].2@[k as int].1.deep_view());
                    return predicate::copy_byte_strings(&keys[i].2[k].1);
                },
                None => {},
            }
        },
        None => {},
    }
    let none: Vec<Vec<u8>> = Vec::new();
    assert(none.deep_view() =~= Seq::empty());
    none
}

fn set_brought(
    keys: &mut Vec<(String, String, Vec<(String, Vec<Vec<u8>>)>)>,
    d: &str,
    t: &str,
    name: &str,
    list: Vec<Vec<u8>>,
)
    ensures
        final(keys).deep_view() == with_brought(
            old(keys).deep_view(),
            d@,
            t@,
            name@,
            list.deep_view(),
        ),
{
    let ghost before = keys.deep_view();
    match pairs::find_pair(keys, d, t) {
        Some(i) => {
            assert(before[i as int].2 == keys@[i as int].2.deep_view());
            assoc::set_entry(&mut keys[i].2, name, list);
            assert(keys.deep_view() =~= before.update(
                i as int,
                (
                    before[i as int].0,
                    before[i as int].1,
                    assoc::with_entry(before[i as int].2, name@, list.deep_view()),
                ),
            ));
        },
        None => {
            let mut inner: Vec<(String, Vec<Vec<u8>>)> = Vec::new();
            assert(inner.deep_view() =~= Seq::empty());
            assoc::set_entry(&mut inner, name, list);
            pairs::set_pair(keys, d, t, inner);
        },
    }
}

/// The first constraint of a name, from the `at`-th on.
pub open spec fn constraint_at(keys: Seq<KeyModel>, name: Seq<char>, at: int) -> Option<int>
    decreases keys.len() - at,
{
    if at < 0 || at >= keys.len() {
        None
    } else if keys[at].name == name {
        Some(at)
    } else {
        constraint_at(keys, name, at + 1)
    }
}

/// Whether a stored table holds a key for a constraint of its own.
pub open spec fn stored_key(t: TableModel, name: Seq<char>, k: Seq<u8>) -> bool {
    match constraint_at(schema::keys(t.schema), name, 0) {
        None => false,
        Some(i) => index::key_set(t.rows(), schema::keys(t.schema)[i].columns).contains(k),
    }
}

/// Whether a store holds a key.
pub open spec fn key_exists(
    s: StoreModel,
    d: Seq<char>,
    t: Seq<char>,
    name: Seq<char>,
    k: Seq<u8>,
) -> bool {
    match store::table_in(s, d, t) {
        None => false,
        Some(found) => stored_key(found, name, k),
    }
}

pub fn constraint_key_exists(s: &Store, d: &str, t: &str, name: &str, key: &[u8]) -> (r: bool)
    requires
        s.wf(),
    ensures
        r == key_exists(s@, d@, t@, name@, key@),
{
    let db = match s.database(d) {
        None => {
            return false;
        },
        Some(db) => db,
    };
    let found = match db.table(t) {
        None => {
            return false;
        },
        Some(found) => found,
    };
    let keys = schema::key_constraints(found.schema());
    let ghost models = keys.deep_view();
    let mut i: usize = 0;
    while i < keys.len()
        invariant
            i <= keys@.len(),
            found.wf(),
            models == keys.deep_view(),
            models == schema::keys(found@.schema),
            store::table_in(s@, d@, t@) == Some(found@),
            constraint_at(models, name@, i as int) == constraint_at(models, name@, 0),
        decreases keys@.len() - i,
    {
        assert(models[i as int] == keys@[i as int]@);
        if text::text_equal(keys[i].name.as_str(), name) {
            return found.constraint_key_exists(i, key);
        }
        i += 1;
    }
    false
}

/// The keys of a row, from the `at`-th constraint on, added to those of the batch; `stored` says
/// whether stored rows count.
pub open spec fn keys_added(
    keys: KeysModel,
    r: RowModel,
    list: Seq<KeyModel>,
    d: Seq<char>,
    t: Seq<char>,
    stored: bool,
    s: StoreModel,
    at: int,
) -> Result<KeysModel, Seq<char>>
    decreases list.len() - at,
{
    if at < 0 || at >= list.len() {
        Ok(keys)
    } else {
        match values::key(r, list[at].columns) {
            None => keys_added(keys, r, list, d, t, stored, s, at + 1),
            Some(k) => {
                let known = brought(keys, d, t, list[at].name);
                if (stored && key_exists(s, d, t, list[at].name, k)) || known.contains(k) {
                    Err(images::duplicate_entry(list[at].name))
                } else {
                    keys_added(
                        with_brought(keys, d, t, list[at].name, known.push(k)),
                        r,
                        list,
                        d,
                        t,
                        stored,
                        s,
                        at + 1,
                    )
                }
            },
        }
    }
}

#[verifier::loop_isolation(false)]
pub(crate) fn add_keys(
    keys: &mut Vec<(String, String, Vec<(String, Vec<Vec<u8>>)>)>,
    r: &Row,
    list: &Vec<schema::KeyConstraint>,
    d: &str,
    t: &str,
    stored: bool,
    s: &Store,
) -> (res: DbResult<()>)
    requires
        s.wf(),
    ensures
        match res {
            Ok(_) => keys_added(
                old(keys).deep_view(),
                r@,
                list.deep_view(),
                d@,
                t@,
                stored,
                s@,
                0,
            ) == Ok::<KeysModel, Seq<char>>(final(keys).deep_view()),
            Err(e) => keys_added(
                old(keys).deep_view(),
                r@,
                list.deep_view(),
                d@,
                t@,
                stored,
                s@,
                0,
            ) == Err::<KeysModel, Seq<char>>(e.message@),
        },
{
    let ghost models = list.deep_view();
    let ghost whole = keys_added(keys.deep_view(), r@, models, d@, t@, stored, s@, 0);
    let mut i: usize = 0;
    while i < list.len()
        invariant
            i <= list@.len(),
            models == list.deep_view(),
            keys_added(keys.deep_view(), r@, models, d@, t@, stored, s@, i as int) == whole,
        decreases list@.len() - i,
    {
        assert(models[i as int] == list@[i as int]@);
        match values::encode_key(r, &list[i].columns) {
            None => {},
            Some(key) => {
                let name = list[i].name.as_str();
                let mut known = copy_brought(keys, d, t, name);
                let ghost before = known.deep_view();
                if (stored && constraint_key_exists(s, d, t, name, key.as_slice()))
                    || bytes_listed(&known, key.as_slice()) {
                    return Err(images::duplicate_error(name));
                }
                proof {
                    row::bytes_model(key);
                }
                known.push(key);
                assert(known.deep_view() =~= before.push(key@));
                set_brought(keys, d, t, name, known);
            },
        }
        i += 1;
    }
    Ok(())
}

fn bytes_listed(list: &Vec<Vec<u8>>, b: &[u8]) -> (r: bool)
    ensures
        r == list.deep_view().contains(b@),
{
    let r = altered::bytes_among(list, b);
    assert(list.deep_view().to_set().contains(b@) == list.deep_view().contains(b@));
    r
}

/// The keys of the batch with those of a new table empty.
pub open spec fn keys_cleared(
    keys: KeysModel,
    list: Seq<KeyModel>,
    d: Seq<char>,
    t: Seq<char>,
    at: int,
) -> KeysModel
    decreases list.len() - at,
{
    if at < 0 || at >= list.len() {
        keys
    } else {
        keys_cleared(with_brought(keys, d, t, list[at].name, Seq::empty()), list, d, t, at + 1)
    }
}

fn clear_keys(
    keys: &mut Vec<(String, String, Vec<(String, Vec<Vec<u8>>)>)>,
    list: &Vec<schema::KeyConstraint>,
    d: &str,
    t: &str,
)
    ensures
        final(keys).deep_view() == keys_cleared(
            old(keys).deep_view(),
            list.deep_view(),
            d@,
            t@,
            0,
        ),
{
    let ghost models = list.deep_view();
    let ghost whole = keys_cleared(keys.deep_view(), models, d@, t@, 0);
    let mut i: usize = 0;
    while i < list.len()
        invariant
            i <= list@.len(),
            models == list.deep_view(),
            keys_cleared(keys.deep_view(), models, d@, t@, i as int) == whole,
        decreases list@.len() - i,
    {
        assert(models[i as int] == list@[i as int]@);
        let none: Vec<Vec<u8>> = Vec::new();
        assert(none.deep_view() =~= Seq::empty());
        set_brought(keys, d, t, list[i].name.as_str(), none);
        i += 1;
    }
}

// ---------------------------------------------------------------------------------------------
// Databases and tables
// ---------------------------------------------------------------------------------------------
#[verifier::opaque]
pub open spec fn create_database_step(sh: ShadowModel, name: Seq<char>) -> Result<
    ShadowModel,
    Seq<char>,
> {
    if assoc::lookup(sh.catalog, name) is Some {
        Err("Database '"@ + name + "' already exists"@)
    } else {
        Ok(
            ShadowModel {
                catalog: assoc::with_entry(sh.catalog, name, Seq::empty()),
                procedures: assoc::with_entry(sh.procedures, name, Seq::empty()),
                reset_databases: assoc::with_name(sh.reset_databases, name),
                ..sh
            },
        )
    }
}

#[verifier::opaque]
pub open spec fn drop_database_step(sh: ShadowModel, name: Seq<char>) -> Result<
    ShadowModel,
    Seq<char>,
> {
    if assoc::lookup(sh.catalog, name) is None {
        Err(store::unknown_database(name))
    } else {
        Ok(
            ShadowModel {
                catalog: assoc::without_entry(sh.catalog, name),
                procedures: assoc::without_entry(sh.procedures, name),
                keys: pairs::without_first(sh.keys, name),
                reset_databases: assoc::with_name(sh.reset_databases, name),
                ..sh
            },
        )
    }
}

#[verifier::opaque]
pub open spec fn create_table_step(sh: ShadowModel, d: Seq<char>, s: SchemaModel) -> Result<
    ShadowModel,
    Seq<char>,
> {
    match assoc::lookup(sh.catalog, d) {
        None => Err(store::unknown_database(d)),
        Some(tables) => if assoc::lookup(tables, s.name) is Some {
            Err("Table '"@ + s.name + "' already exists"@)
        } else {
            Ok(
                ShadowModel {
                    catalog: assoc::with_entry(
                        sh.catalog,
                        d,
                        assoc::with_entry(tables, s.name, s),
                    ),
                    keys: keys_cleared(sh.keys, schema::keys(s), d, s.name, 0),
                    checked: if has_checks(s) {
                        pairs::with_pair(sh.checked, d, s.name, Seq::empty())
                    } else {
                        sh.checked
                    },
                    reset_tables: pairs::pair_added(sh.reset_tables, d, s.name),
                    ..sh
                },
            )
        },
    }
}

#[verifier::opaque]
pub open spec fn drop_table_step(sh: ShadowModel, d: Seq<char>, t: Seq<char>) -> Result<
    ShadowModel,
    Seq<char>,
> {
    match assoc::lookup(sh.catalog, d) {
        None => Err(store::unknown_database(d)),
        Some(tables) => if assoc::lookup(tables, t) is None {
            Err(database::no_table(t))
        } else {
            Ok(
                ShadowModel {
                    catalog: assoc::with_entry(sh.catalog, d, assoc::without_entry(tables, t)),
                    keys: pairs::without_pair(sh.keys, d, t),
                    checked: pairs::without_pair(sh.checked, d, t),
                    reset_tables: pairs::pair_added(sh.reset_tables, d, t),
                    ..sh
                },
            )
        },
    }
}

impl Shadow {
    pub(crate) fn create_database(&mut self, name: &str) -> (r: DbResult<()>)
        ensures
            match r {
                Ok(_) => create_database_step(old(self)@, name@) == Ok::<ShadowModel, Seq<char>>(
                    final(self)@,
                ),
                Err(e) => create_database_step(old(self)@, name@) == Err::<ShadowModel, Seq<char>>(
                    e.message@,
                ),
            },
    {
        proof {
            reveal(create_database_step);
        }
        if assoc::find_entry(&self.catalog, name).is_some() {
            return Err(DbError::new(error::cat3("Database '", name, "' already exists")));
        }
        let tables: Vec<(String, TableSchema)> = Vec::new();
        let routines: Vec<(String, ProcedureDefinition)> = Vec::new();
        assert(tables.deep_view() =~= Seq::empty());
        assert(routines.deep_view() =~= Seq::empty());
        assoc::set_entry(&mut self.catalog, name, tables);
        assoc::set_entry(&mut self.procedures, name, routines);
        assoc::add_name(&mut self.reset_databases, name);
        Ok(())
    }

    pub(crate) fn drop_database(&mut self, name: &str) -> (r: DbResult<()>)
        ensures
            match r {
                Ok(_) => drop_database_step(old(self)@, name@) == Ok::<ShadowModel, Seq<char>>(
                    final(self)@,
                ),
                Err(e) => drop_database_step(old(self)@, name@) == Err::<ShadowModel, Seq<char>>(
                    e.message@,
                ),
            },
    {
        proof {
            reveal(drop_database_step);
        }
        if assoc::find_entry(&self.catalog, name).is_none() {
            return Err(store::unknown_database_error(name));
        }
        assoc::remove_entries(&mut self.catalog, name);
        assoc::remove_entries(&mut self.procedures, name);
        pairs::remove_pairs(&mut self.keys, name, None);
        assoc::add_name(&mut self.reset_databases, name);
        Ok(())
    }

    pub(crate) fn create_table(&mut self, d: &str, s: &TableSchema) -> (r: DbResult<()>)
        ensures
            match r {
                Ok(_) => create_table_step(old(self)@, d@, s@) == Ok::<ShadowModel, Seq<char>>(
                    final(self)@,
                ),
                Err(e) => create_table_step(old(self)@, d@, s@) == Err::<ShadowModel, Seq<char>>(
                    e.message@,
                ),
            },
    {
        proof {
            reveal(create_table_step);
        }
        match assoc::find_entry(&self.catalog, d) {
            None => {
                return Err(store::unknown_database_error(d));
            },
            Some(i) => {
                assert(self@.catalog[i as int].1 == self.catalog@[i as int].1.deep_view());
                if assoc::find_entry(&self.catalog[i].1, s.name.as_str()).is_some() {
                    return Err(
                        DbError::new(error::cat3("Table '", s.name.as_str(), "' already exists")),
                    );
                }
            },
        }
        let keys = schema::key_constraints(s);
        clear_keys(&mut self.keys, &keys, d, s.name.as_str());
        pairs::add_pair(&mut self.reset_tables, d, s.name.as_str());
        if schema_has_checks(s) {
            let none: Vec<Row> = Vec::new();
            assert(none.deep_view() =~= Seq::empty());
            pairs::set_pair(&mut self.checked, d, s.name.as_str(), none);
        }
        let copy = s.clone();
        assoc::set_nested(&mut self.catalog, d, s.name.as_str(), copy);
        Ok(())
    }

    pub(crate) fn drop_table(&mut self, d: &str, t: &str) -> (r: DbResult<()>)
        ensures
            match r {
                Ok(_) => drop_table_step(old(self)@, d@, t@) == Ok::<ShadowModel, Seq<char>>(
                    final(self)@,
                ),
                Err(e) => drop_table_step(old(self)@, d@, t@) == Err::<ShadowModel, Seq<char>>(
                    e.message@,
                ),
            },
    {
        proof {
            reveal(drop_table_step);
        }
        match assoc::find_entry(&self.catalog, d) {
            None => {
                return Err(store::unknown_database_error(d));
            },
            Some(i) => {
                assert(self@.catalog[i as int].1 == self.catalog@[i as int].1.deep_view());
                if assoc::find_entry(&self.catalog[i].1, t).is_none() {
                    return Err(database::no_table_error(t));
                }
            },
        }
        assoc::remove_nested(&mut self.catalog, d, t);
        pairs::remove_pairs(&mut self.keys, d, Some(t));
        pairs::remove_pairs(&mut self.checked, d, Some(t));
        pairs::add_pair(&mut self.reset_tables, d, t);
        Ok(())
    }
}

} // verus!
