//! Validating ALTER TABLE.
use crate::alter;
use crate::alter::{AlterTableOperation, OperationModel};
use crate::altered;
use crate::assoc;
use crate::checks;
use crate::database;
use crate::error;
use crate::error::{DbError, DbResult};
use crate::fkeys;
use crate::fkeys::{ForeignKeyModel, ForeignKeySpec};
use crate::images;
use crate::pairs;
use crate::predicate::{Context, ContextModel};
use crate::row::{Row, RowModel};
use crate::schema;
use crate::schema::{Column, ColumnModel, SchemaModel, TableSchema};
use crate::store;
use crate::store::{Store, StoreModel};
use crate::text;
use crate::validate;
use crate::validate::{CatalogModel, Shadow, ShadowModel, TablesModel};
use vstd::prelude::*;

verus! {

// ---------------------------------------------------------------------------------------------
// What depends on a column
// ---------------------------------------------------------------------------------------------
/// Whether a foreign key of `child` uses a column of a table, on either side.
pub open spec fn key_uses(
    k: ForeignKeyModel,
    child: Seq<char>,
    table: Seq<char>,
    column: Seq<char>,
) -> bool {
    (child == table && k.child_columns.contains(column)) || (k.parent_table == table
        && k.parent_columns.contains(column))
}

pub open spec fn using_key_from(
    keys: Seq<ForeignKeyModel>,
    child: Seq<char>,
    table: Seq<char>,
    column: Seq<char>,
    at: int,
) -> Option<Seq<char>>
    decreases keys.len() - at,
{
    if at < 0 || at >= keys.len() {
        None
    } else if key_uses(keys[at], child, table, column) {
        Some(keys[at].name)
    } else {
        using_key_from(keys, child, table, column, at + 1)
    }
}

/// The first foreign key, in the tables from the `at`-th on, that uses a column.
pub open spec fn using_key(
    tables: TablesModel,
    table: Seq<char>,
    column: Seq<char>,
    at: int,
) -> Option<Seq<char>>
    decreases tables.len() - at,
{
    if at < 0 || at >= tables.len() {
        None
    } else {
        match using_key_from(
            fkeys::foreign_keys(tables[at].0, tables[at].1),
            tables[at].0,
            table,
            column,
            0,
        ) {
            Some(name) => Some(name),
            None => using_key(tables, table, column, at + 1),
        }
    }
}

/// The first check, from the `at`-th on, that mentions a column.
pub open spec fn using_check(
    list: Seq<(Seq<char>, Seq<char>)>,
    column: Seq<char>,
    at: int,
) -> Option<Seq<char>>
    decreases list.len() - at,
{
    if at < 0 || at >= list.len() {
        None
    } else if altered::mentions(list[at].1, column) {
        Some(list[at].0)
    } else {
        using_check(list, column, at + 1)
    }
}

/// Why an operation cannot remove or rename a column: something depends on it.
#[verifier::opaque]
pub open spec fn dependency(c: CatalogModel, d: Seq<char>, t: Seq<char>, op: OperationModel) -> Option<
    Seq<char>,
> {
    match altered::target_column(op) {
        None => None,
        Some(column) => match assoc::lookup(c, d) {
            None => Some(store::unknown_database(d)),
            Some(tables) => match using_key(tables, t, column, 0) {
                Some(name) => Some(
                    "Column '"@ + column + "' is used by foreign key constraint '"@ + name + "'"@,
                ),
                None => match assoc::lookup(tables, t) {
                    None => None,
                    Some(s) => match using_check(checks::checks(s), column, 0) {
                        Some(name) => Some(
                            "Column '"@ + column + "' is used by check constraint '"@ + name + "'"@,
                        ),
                        None => None,
                    },
                },
            },
        },
    }
}

fn find_using_key(keys: &Vec<ForeignKeySpec>, child: &str, table: &str, column: &str) -> (r: Option<
    String,
>)
    ensures
        r.deep_view() == using_key_from(keys.deep_view(), child@, table@, column@, 0),
{
    let ghost models = keys.deep_view();
    let mut i: usize = 0;
    while i < keys.len()
        invariant
            i <= keys@.len(),
            models == keys.deep_view(),
            using_key_from(models, child@, table@, column@, i as int) == using_key_from(
                models,
                child@,
                table@,
                column@,
                0,
            ),
        decreases keys@.len() - i,
    {
        let k = &keys[i];
        assert(models[i as int] == k@);
        let as_child = text::text_equal(child, table) && assoc::has_name(&k.child_columns, column);
        let as_parent = text::text_equal(k.parent_table.as_str(), table) && assoc::has_name(
            &k.parent_columns,
            column,
        );
        if as_child || as_parent {
            return Some(k.name.clone());
        }
        i += 1;
    }
    None
}

fn find_using(tables: &Vec<(String, TableSchema)>, table: &str, column: &str) -> (r: Option<String>)
    ensures
        r.deep_view() == using_key(tables.deep_view(), table@, column@, 0),
{
    let ghost all = tables.deep_view();
    let mut i: usize = 0;
    while i < tables.len()
        invariant
            i <= tables@.len(),
            all == tables.deep_view(),
            using_key(all, table@, column@, i as int) == using_key(all, table@, column@, 0),
        decreases tables@.len() - i,
    {
        assert(all[i as int] == (tables@[i as int].0@, tables@[i as int].1@));
        let keys = fkeys::table_foreign_keys(tables[i].0.as_str(), &tables[i].1);
        match find_using_key(&keys, tables[i].0.as_str(), table, column) {
            Some(name) => {
                return Some(name);
            },
            None => {},
        }
        i += 1;
    }
    None
}

fn find_using_check(list: &Vec<(String, String)>, column: &str) -> (r: Option<String>)
    ensures
        r.deep_view() == using_check(list.deep_view(), column@, 0),
{
    let ghost all = list.deep_view();
    let mut i: usize = 0;
    while i < list.len()
        invariant
            i <= list@.len(),
            all == list.deep_view(),
            using_check(all, column@, i as int) == using_check(all, column@, 0),
        decreases list@.len() - i,
    {
        assert(all[i as int] == (list@[i as int].0@, list@[i as int].1@));
        if altered::expression_mentions_column(list[i].1.as_str(), column) {
            return Some(list[i].0.clone());
        }
        i += 1;
    }
    None
}

pub fn validate_alter_column_dependencies(
    c: &Vec<(String, Vec<(String, TableSchema)>)>,
    d: &str,
    t: &str,
    op: &AlterTableOperation,
) -> (r: DbResult<()>)
    ensures
        match r {
            Ok(_) => dependency(c.deep_view(), d@, t@, op@) is None,
            Err(e) => dependency(c.deep_view(), d@, t@, op@) == Some(e.message@),
        },
{
    proof {
        reveal(dependency);
    }
    let column = match altered::alter_target_column(op) {
        None => {
            return Ok(());
        },
        Some(column) => column,
    };
    let i = match assoc::find_entry(c, d) {
        None => {
            return Err(store::unknown_database_error(d));
        },
        Some(i) => i,
    };
    assert(c.deep_view()[i as int].1 == c@[i as int].1.deep_view());
    match find_using(&c[i].1, t, column.as_str()) {
        Some(name) => {
            return Err(
                DbError::new(
                    error::cat5(
                        "Column '",
                        column.as_str(),
                        "' is used by foreign key constraint '",
                        name.as_str(),
                        "'",
                    ),
                ),
            );
        },
        None => {},
    }
    match assoc::find_entry(&c[i].1, t) {
        None => Ok(()),
        Some(k) => {
            assert(c@[i as int].1.deep_view()[k as int].1 == c@[i as int].1@[k as int].1@);
            let list = checks::table_check_constraints(&c[i].1[k].1);
            match find_using_check(&list, column.as_str()) {
                Some(name) => Err(
                    DbError::new(
                        error::cat5(
                            "Column '",
                            column.as_str(),
                            "' is used by check constraint '",
                            name.as_str(),
                            "'",
                        ),
                    ),
                ),
                None => Ok(()),
            }
        },
    }
}

// ---------------------------------------------------------------------------------------------
// An added check
// ---------------------------------------------------------------------------------------------
/// A row with NULL in the columns from the `at`-th on.
pub open spec fn nulls_from(columns: Seq<ColumnModel>, at: int, r: RowModel) -> RowModel
    decreases columns.len() - at,
{
    if at < 0 || at >= columns.len() {
        r
    } else {
        nulls_from(columns, at + 1, r.pushed_null(columns[at].name))
    }
}

fn null_row(s: &TableSchema) -> (r: Row)
    ensures
        r@ == nulls_from(s@.columns, 0, RowModel::empty()),
{
    let ghost columns = s@.columns;
    let mut r = Row::new();
    let mut i: usize = 0;
    while i < s.columns.len()
        invariant
            i <= s.columns@.len(),
            columns == s.columns.deep_view(),
            nulls_from(columns, i as int, r@) == nulls_from(columns, 0, RowModel::empty()),
        decreases s.columns@.len() - i,
    {
        assert(columns[i as int] == s.columns@[i as int]@);
        r.push_null(s.columns[i].name.as_str());
        i += 1;
    }
    r
}

/// Why the checks from the `at`-th on cannot be evaluated on a row.
pub open spec fn unreadable(
    list: Seq<(Seq<char>, Seq<char>)>,
    r: RowModel,
    columns: Seq<ColumnModel>,
    at: int,
) -> Option<Seq<char>>
    decreases list.len() - at,
{
    if at < 0 || at >= list.len() {
        None
    } else {
        match checks::truth(list[at].1, r, columns) {
            Err(e) => Some(e),
            Ok(_) => unreadable(list, r, columns, at + 1),
        }
    }
}

fn check_readable(list: &Vec<(String, String)>, r: &Row, columns: &Vec<Column>) -> (res: DbResult<()>)
    ensures
        match res {
            Ok(_) => unreadable(list.deep_view(), r@, columns.deep_view(), 0) is None,
            Err(e) => unreadable(list.deep_view(), r@, columns.deep_view(), 0) == Some(e.message@),
        },
{
    let ghost all = list.deep_view();
    let mut i: usize = 0;
    while i < list.len()
        invariant
            i <= list@.len(),
            all == list.deep_view(),
            unreadable(all, r@, columns.deep_view(), i as int) == unreadable(
                all,
                r@,
                columns.deep_view(),
                0,
            ),
        decreases list@.len() - i,
    {
        assert(all[i as int] == (list@[i as int].0@, list@[i as int].1@));
        let e = text::chars_of(list[i].1.as_str());
        match checks::evaluate_check_expression(&e, r, columns) {
            Err(m) => {
                return Err(m);
            },
            Ok(_) => {},
        }
        i += 1;
    }
    Ok(())
}

// ---------------------------------------------------------------------------------------------
// An added foreign key
// ---------------------------------------------------------------------------------------------
/// How many of the first `n` keys have a name.
pub open spec fn named_upto(keys: Seq<ForeignKeyModel>, name: Seq<char>, n: int) -> nat
    decreases n,
{
    if n <= 0 {
        0
    } else {
        named_upto(keys, name, n - 1) + (if keys[n - 1].name == name {
            1nat
        } else {
            0nat
        })
    }
}

/// Whether more than one foreign key, in the tables from the `at`-th on and among `seen` others,
/// has a name.
pub open spec fn named_twice(tables: TablesModel, name: Seq<char>, at: int, seen: bool) -> bool
    decreases tables.len() - at,
{
    if at < 0 || at >= tables.len() {
        false
    } else {
        let keys = fkeys::foreign_keys(tables[at].0, tables[at].1);
        let n = named_upto(keys, name, keys.len() as int);
        n > 1 || (n == 1 && seen) || named_twice(tables, name, at + 1, seen || n == 1)
    }
}

fn key_named_twice(tables: &Vec<(String, TableSchema)>, name: &str) -> (r: bool)
    ensures
        r == named_twice(tables.deep_view(), name@, 0, false),
{
    let ghost all = tables.deep_view();
    let mut seen = false;
    let mut i: usize = 0;
    while i < tables.len()
        invariant
            i <= tables@.len(),
            all == tables.deep_view(),
            named_twice(all, name@, i as int, seen) == named_twice(all, name@, 0, false),
        decreases tables@.len() - i,
    {
        assert(all[i as int] == (tables@[i as int].0@, tables@[i as int].1@));
        let keys = fkeys::table_foreign_keys(tables[i].0.as_str(), &tables[i].1);
        let ghost models = keys.deep_view();
        let mut n: u64 = 0;
        let mut k: usize = 0;
        while k < keys.len()
            invariant
                k <= keys@.len(),
                models == keys.deep_view(),
                n == named_upto(models, name@, k as int),
                n <= k,
            decreases keys@.len() - k,
        {
            assert(models[k as int] == keys@[k as int]@);
            if text::text_equal(keys[k].name.as_str(), name) {
                n += 1;
            }
            k += 1;
        }
        if n > 1 || (n == 1 && seen) {
            return true;
        }
        seen = seen || n == 1;
        i += 1;
    }
    false
}

/// The first key of a name, from the `at`-th on.
pub open spec fn key_at(keys: Seq<ForeignKeyModel>, name: Seq<char>, at: int) -> Option<int>
    decreases keys.len() - at,
{
    if at < 0 || at >= keys.len() {
        None
    } else if keys[at].name == name {
        Some(at)
    } else {
        key_at(keys, name, at + 1)
    }
}

fn find_key(keys: &Vec<ForeignKeySpec>, name: &str) -> (r: Option<usize>)
    ensures
        r is Some == key_at(keys.deep_view(), name@, 0) is Some,
        r matches Some(i) ==> i < keys@.len() && key_at(keys.deep_view(), name@, 0) == Some(
            i as int,
        ),
{
    let ghost models = keys.deep_view();
    let mut i: usize = 0;
    while i < keys.len()
        invariant
            i <= keys@.len(),
            models == keys.deep_view(),
            key_at(models, name@, i as int) == key_at(models, name@, 0),
        decreases keys@.len() - i,
    {
        assert(models[i as int] == keys@[i as int]@);
        if text::text_equal(keys[i].name.as_str(), name) {
            return Some(i);
        }
        i += 1;
    }
    None
}

/// Whether a table has columns as its primary key or as an index.
pub open spec fn keyed_by(s: SchemaModel, columns: Seq<Seq<char>>) -> bool {
    schema::primary_key(s) == columns || exists|i: int|
        0 <= i < s.indexes.len() && (#[trigger] s.indexes[i]).columns == columns
}

fn schema_keyed_by(s: &TableSchema, columns: &Vec<String>) -> (r: bool)
    ensures
        r == keyed_by(s@, columns.deep_view()),
{
    let primary = schema::primary_key_columns(s);
    if altered::same_names(&primary, columns) {
        return true;
    }
    let mut i: usize = 0;
    while i < s.indexes.len()
        invariant
            i <= s.indexes@.len(),
            forall|j: int|
                0 <= j < i ==> (#[trigger] s@.indexes[j]).columns != columns.deep_view(),
        decreases s.indexes@.len() - i,
    {
        assert(s@.indexes[i as int] == s.indexes@[i as int]@);
        if altered::same_names(&s.indexes[i].columns, columns) {
            return true;
        }
        i += 1;
    }
    false
}

/// Whether one of the rows has a key.
pub open spec fn any_row_key(
    rows: Seq<RowModel>,
    columns: Seq<Seq<char>>,
    k: Option<Seq<Seq<u8>>>,
) -> bool {
    exists|i: int| 0 <= i < rows.len() && fkeys::row_key(#[trigger] rows[i], columns) == k
}

pub fn has_row_key(rows: &Vec<Row>, columns: &Vec<String>, k: &Option<Vec<Vec<u8>>>) -> (r: bool)
    ensures
        r == any_row_key(rows.deep_view(), columns.deep_view(), fkeys::byte_lists(*k)),
{
    let ghost all = rows.deep_view();
    let mut i: usize = 0;
    while i < rows.len()
        invariant
            i <= rows@.len(),
            all == rows.deep_view(),
            forall|j: int|
                0 <= j < i ==> fkeys::row_key(#[trigger] all[j], columns.deep_view())
                    != fkeys::byte_lists(*k),
        decreases rows@.len() - i,
    {
        assert(all[i as int] == rows@[i as int]@);
        let own = fkeys::foreign_key_row_key(&rows[i], columns);
        if fkeys::same_keys(&own, k) {
            return true;
        }
        i += 1;
    }
    false
}

/// Whether a child row has a key that no parent row has.
pub open spec fn orphaned(
    children: Seq<RowModel>,
    parents: Seq<RowModel>,
    k: ForeignKeyModel,
) -> bool {
    exists|i: int|
        0 <= i < children.len() && fkeys::row_key(#[trigger] children[i], k.child_columns) is Some
            && !any_row_key(
            parents,
            k.parent_columns,
            fkeys::row_key(children[i], k.child_columns),
        )
}

fn has_orphan(children: &Vec<Row>, parents: &Vec<Row>, k: &ForeignKeySpec) -> (r: bool)
    ensures
        r == orphaned(children.deep_view(), parents.deep_view(), k@),
{
    let ghost all = children.deep_view();
    let ghost model = k@;
    let mut i: usize = 0;
    while i < children.len()
        invariant
            i <= children@.len(),
            all == children.deep_view(),
            model == k@,
            forall|j: int|
                0 <= j < i ==> !(fkeys::row_key(#[trigger] all[j], model.child_columns) is Some
                    && !any_row_key(
                    parents.deep_view(),
                    model.parent_columns,
                    fkeys::row_key(all[j], model.child_columns),
                )),
        decreases children@.len() - i,
    {
        assert(all[i as int] == children@[i as int]@);
        let own = fkeys::foreign_key_row_key(&children[i], &k.child_columns);
        if own.is_some() && !has_row_key(parents, &k.parent_columns, &own) {
            return true;
        }
        i += 1;
    }
    false
}

/// What a foreign key that was added has to meet, before rows are looked at: the key, and the
/// schemas of the child and of the parent.
pub open spec fn added_key(tables: TablesModel, t: Seq<char>, name: Seq<char>) -> Result<
    (ForeignKeyModel, SchemaModel, SchemaModel),
    Seq<char>,
> {
    if named_twice(tables, name, 0, false) {
        Err("Duplicate foreign key constraint name '"@ + name + "'"@)
    } else {
        match assoc::lookup(tables, t) {
            None => Err(database::no_table(t)),
            Some(child) => match key_at(fkeys::foreign_keys(t, child), name, 0) {
                None => Err("Foreign key '"@ + name + "' is not defined"@),
                Some(i) => {
                    let k = fkeys::foreign_keys(t, child)[i];
                    match assoc::lookup(tables, k.parent_table) {
                        None => Err(database::no_table(k.parent_table)),
                        Some(parent) => match alter::missing_from(
                            child.columns,
                            k.child_columns,
                            0,
                        ) {
                            Some(c) => Err(schema::unknown_column(c)),
                            None => match alter::missing_from(
                                parent.columns,
                                k.parent_columns,
                                0,
                            ) {
                                Some(c) => Err(schema::unknown_column(c)),
                                None => if !keyed_by(parent, k.parent_columns) {
                                    Err(
                                        "Missing index for constraint '"@ + name
                                            + "' in referenced table '"@ + k.parent_table + "'"@,
                                    )
                                } else {
                                    Ok((k, child, parent))
                                },
                            },
                        },
                    }
                },
            },
        }
    }
}

pub struct AddedKey {
    pub key: ForeignKeySpec,
    pub child: TableSchema,
    pub parent: TableSchema,
}

fn find_added_key(tables: &Vec<(String, TableSchema)>, t: &str, name: &str) -> (r: DbResult<AddedKey>)
    ensures
        match r {
            Ok(a) => added_key(tables.deep_view(), t@, name@) == Ok::<
                (ForeignKeyModel, SchemaModel, SchemaModel),
                Seq<char>,
            >((a.key@, a.child@, a.parent@)),
            Err(e) => added_key(tables.deep_view(), t@, name@) == Err::<
                (ForeignKeyModel, SchemaModel, SchemaModel),
                Seq<char>,
            >(e.message@),
        },
{
    if key_named_twice(tables, name) {
        return Err(
            DbError::new(error::cat3("Duplicate foreign key constraint name '", name, "'")),
        );
    }
    let child = match assoc::find_entry(tables, t) {
        None => {
            return Err(database::no_table_error(t));
        },
        Some(i) => {
            assert(tables.deep_view()[i as int].1 == tables@[i as int].1@);
            tables[i].1.clone()
        },
    };
    let mut keys = fkeys::table_foreign_keys(t, &child);
    let k = match find_key(&keys, name) {
        None => {
            return Err(DbError::new(error::cat3("Foreign key '", name, "' is not defined")));
        },
        Some(i) => {
            assert(keys.deep_view()[i as int] == keys@[i as int]@);
            keys.remove(i)
        },
    };
    let parent = match assoc::find_entry(tables, k.parent_table.as_str()) {
        None => {
            return Err(database::no_table_error(k.parent_table.as_str()));
        },
        Some(i) => {
            assert(tables.deep_view()[i as int].1 == tables@[i as int].1@);
            tables[i].1.clone()
        },
    };
    match alter::check_columns(&child.columns, &k.child_columns) {
        Err(e) => {
            return Err(e);
        },
        Ok(_) => {},
    }
    match alter::check_columns(&parent.columns, &k.parent_columns) {
        Err(e) => {
            return Err(e);
        },
        Ok(_) => {},
    }
    if !schema_keyed_by(&parent, &k.parent_columns) {
        return Err(
            DbError::new(
                error::cat5(
                    "Missing index for constraint '",
                    name,
                    "' in referenced table '",
                    k.parent_table.as_str(),
                    "'",
                ),
            ),
        );
    }
    Ok(AddedKey { key: k, child: child, parent: parent })
}

/// The shadow with the rows of an altered table set.
pub open spec fn with_altered(
    sh: ShadowModel,
    d: Seq<char>,
    t: Seq<char>,
    rows: Seq<RowModel>,
) -> ShadowModel {
    ShadowModel { altered: pairs::with_pair(sh.altered, d, t, rows), ..sh }
}

/// The rows of a table looked up, and completed by a schema.
pub open spec fn looked_up(
    sh: ShadowModel,
    d: Seq<char>,
    t: Seq<char>,
    s: SchemaModel,
    store: StoreModel,
    cx: ContextModel,
) -> Result<(ShadowModel, Seq<RowModel>), Seq<char>> {
    match validate::image(sh.altered, sh, store, d, t) {
        Err(e) => Err(e),
        Ok(rows) => match images::materialized_all(rows, s, cx.moment) {
            Err(e) => Err(e),
            Ok(full) => Ok((with_altered(sh, d, t, rows), full)),
        },
    }
}

#[verifier::opaque]
pub open spec fn foreign_key_step(
    sh: ShadowModel,
    d: Seq<char>,
    t: Seq<char>,
    name: Seq<char>,
    store: StoreModel,
    cx: ContextModel,
) -> Result<ShadowModel, Seq<char>> {
    match assoc::lookup(sh.catalog, d) {
        None => Err(store::unknown_database(d)),
        Some(tables) => match added_key(tables, t, name) {
            Err(e) => Err(e),
            Ok((k, child, parent)) => match looked_up(sh, d, t, child, store, cx) {
                Err(e) => Err(e),
                Ok((next, children)) => {
                    let other = if k.parent_table == t {
                        Ok((next, children))
                    } else {
                        looked_up(next, d, k.parent_table, parent, store, cx)
                    };
                    match other {
                        Err(e) => Err(e),
                        Ok((last, parents)) => if orphaned(children, parents, k) {
                            Err(
                                "Cannot add or update a child row: a foreign key constraint fails (`"@
                                    + name + "`)"@,
                            )
                        } else {
                            Ok(last)
                        },
                    }
                },
            },
        },
    }
}

impl Shadow {
    fn look_up(&mut self, d: &str, t: &str, s: &TableSchema, store: &Store, cx: &Context) -> (r:
        DbResult<Vec<Row>>)
        requires
            store.wf(),
        ensures
            match r {
                Ok(full) => looked_up(old(self)@, d@, t@, s@, store@, cx@) == Ok::<
                    (ShadowModel, Seq<RowModel>),
                    Seq<char>,
                >((final(self)@, full.deep_view())),
                Err(e) => looked_up(old(self)@, d@, t@, s@, store@, cx@) == Err::<
                    (ShadowModel, Seq<RowModel>),
                    Seq<char>,
                >(e.message@),
            },
    {
        let rows = match validate::load_image(&self.altered, self, store, d, t) {
            Err(e) => {
                return Err(e);
            },
            Ok(rows) => rows,
        };
        match images::materialize_rows(&rows, s, &cx.moment) {
            Err(e) => Err(e),
            Ok(full) => {
                pairs::set_pair(&mut self.altered, d, t, rows);
                Ok(full)
            },
        }
    }

    /// Whether a foreign key that was added fits the tables and their rows.
    pub(crate) fn validate_added_foreign_key(
        &mut self,
        d: &str,
        t: &str,
        name: &str,
        store: &Store,
        cx: &Context,
    ) -> (r: DbResult<()>)
        requires
            store.wf(),
        ensures
            match r {
                Ok(_) => foreign_key_step(old(self)@, d@, t@, name@, store@, cx@) == Ok::<
                    ShadowModel,
                    Seq<char>,
                >(final(self)@),
                Err(e) => foreign_key_step(old(self)@, d@, t@, name@, store@, cx@) == Err::<
                    ShadowModel,
                    Seq<char>,
                >(e.message@),
            },
    {
        proof {
            reveal(foreign_key_step);
        }
        let i = match assoc::find_entry(&self.catalog, d) {
            None => {
                return Err(store::unknown_database_error(d));
            },
            Some(i) => i,
        };
        assert(self@.catalog[i as int].1 == self.catalog@[i as int].1.deep_view());
        let a = match find_added_key(&self.catalog[i].1, t, name) {
            Err(e) => {
                return Err(e);
            },
            Ok(a) => a,
        };
        let children = match self.look_up(d, t, &a.child, store, cx) {
            Err(e) => {
                return Err(e);
            },
            Ok(rows) => rows,
        };
        let orphan = if text::text_equal(a.key.parent_table.as_str(), t) {
            has_orphan(&children, &children, &a.key)
        } else {
            match self.look_up(d, a.key.parent_table.as_str(), &a.parent, store, cx) {
                Err(e) => {
                    return Err(e);
                },
                Ok(parents) => has_orphan(&children, &parents, &a.key),
            }
        };
        if orphan {
            return Err(
                DbError::new(
                    error::cat3(
                        "Cannot add or update a child row: a foreign key constraint fails (`",
                        name,
                        "`)",
                    ),
                ),
            );
        }
        Ok(())
    }
}

#[verifier::opaque]
pub open spec fn check_step(
    sh: ShadowModel,
    d: Seq<char>,
    t: Seq<char>,
    s: SchemaModel,
    store: StoreModel,
    cx: ContextModel,
) -> Result<ShadowModel, Seq<char>> {
    match unreadable(
        checks::checks(s),
        nulls_from(s.columns, 0, RowModel::empty()),
        s.columns,
        0,
    ) {
        Some(e) => Err(e),
        None => match looked_up(sh, d, t, s, store, cx) {
            Err(e) => Err(e),
            Ok((next, _)) => Ok(next),
        },
    }
}

impl Shadow {
    /// Whether the checks of a table can be read, and its rows meet them.
    pub(crate) fn validate_added_check(
        &mut self,
        d: &str,
        t: &str,
        s: &TableSchema,
        store: &Store,
        cx: &Context,
    ) -> (r: DbResult<()>)
        requires
            store.wf(),
        ensures
            match r {
                Ok(_) => check_step(old(self)@, d@, t@, s@, store@, cx@) == Ok::<
                    ShadowModel,
                    Seq<char>,
                >(final(self)@),
                Err(e) => check_step(old(self)@, d@, t@, s@, store@, cx@) == Err::<
                    ShadowModel,
                    Seq<char>,
                >(e.message@),
            },
    {
        proof {
            reveal(check_step);
        }
        let nulls = null_row(s);
        let list = checks::table_check_constraints(s);
        match check_readable(&list, &nulls, &s.columns) {
            Err(e) => {
                return Err(e);
            },
            Ok(_) => {},
        }
        match self.look_up(d, t, s, store, cx) {
            Err(e) => Err(e),
            Ok(_) => Ok(()),
        }
    }
}

// ---------------------------------------------------------------------------------------------
// The operation
// ---------------------------------------------------------------------------------------------
/// The rows follow the operation.
pub open spec fn mutation_step(
    sh: ShadowModel,
    d: Seq<char>,
    t: Seq<char>,
    op: OperationModel,
    store: StoreModel,
) -> Result<ShadowModel, Seq<char>> {
    match altered::mutation_of(op) {
        None => Ok(sh),
        Some(m) => match validate::image(sh.altered, sh, store, d, t) {
            Err(e) => Err(e),
            Ok(rows) => Ok(with_altered(sh, d, t, altered::all_mutated(rows, m))),
        },
    }
}

/// The rows fit a key that the operation adds.
pub open spec fn key_step(
    sh: ShadowModel,
    d: Seq<char>,
    t: Seq<char>,
    s: SchemaModel,
    op: OperationModel,
    store: StoreModel,
    cx: ContextModel,
) -> Result<ShadowModel, Seq<char>> {
    match altered::new_key(op) {
        None => Ok(sh),
        Some((name, columns, nullable)) => match looked_up(sh, d, t, s, store, cx) {
            Err(e) => Err(e),
            Ok((next, full)) => match altered::fits_key(full, columns, name, nullable) {
                Err(e) => Err(e),
                Ok(_) => Ok(next),
            },
        },
    }
}

/// What is left to check once the schema has changed.
pub open spec fn added_step(
    sh: ShadowModel,
    d: Seq<char>,
    t: Seq<char>,
    s: SchemaModel,
    op: OperationModel,
    store: StoreModel,
    cx: ContextModel,
) -> Result<ShadowModel, Seq<char>> {
    match op {
        OperationModel::AddCheck(_, _) => check_step(sh, d, t, s, store, cx),
        OperationModel::AddForeignKey(name, _) => foreign_key_step(sh, d, t, name, store, cx),
        _ => Ok(sh),
    }
}

#[verifier::opaque]
pub open spec fn alter_step(
    sh: ShadowModel,
    d: Seq<char>,
    t: Seq<char>,
    op: OperationModel,
    store: StoreModel,
    cx: ContextModel,
) -> Result<ShadowModel, Seq<char>> {
    match dependency(sh.catalog, d, t, op) {
        Some(e) => Err(e),
        None => match mutation_step(sh, d, t, op, store) {
            Err(e) => Err(e),
            Ok(moved) => match validate::schema_in(moved.catalog, d, t) {
                None => Err(database::no_table(t)),
                Some(s) => match alter::altered(s, op) {
                    Err(e) => Err(e),
                    Ok((after, _)) => {
                        let changed = ShadowModel {
                            catalog: assoc::with_entry(
                                moved.catalog,
                                d,
                                assoc::with_entry(
                                    assoc::lookup(moved.catalog, d)->0,
                                    t,
                                    after,
                                ),
                            ),
                            ..moved
                        };
                        match key_step(changed, d, t, after, op, store, cx) {
                            Err(e) => Err(e),
                            Ok(keyed) => added_step(keyed, d, t, after, op, store, cx),
                        }
                    },
                },
            },
        },
    }
}

impl Shadow {
    fn follow(&mut self, d: &str, t: &str, op: &AlterTableOperation, store: &Store) -> (r: DbResult<()>)
        requires
            store.wf(),
        ensures
            match r {
                Ok(_) => mutation_step(old(self)@, d@, t@, op@, store@) == Ok::<
                    ShadowModel,
                    Seq<char>,
                >(final(self)@),
                Err(e) => mutation_step(old(self)@, d@, t@, op@, store@) == Err::<
                    ShadowModel,
                    Seq<char>,
                >(e.message@),
            },
    {
        match altered::alter_row_mutation(op) {
            None => Ok(()),
            Some(m) => match validate::load_image(&self.altered, self, store, d, t) {
                Err(e) => Err(e),
                Ok(rows) => {
                    let moved = altered::apply_alter_row_mutation(&rows, &m);
                    pairs::set_pair(&mut self.altered, d, t, moved);
                    Ok(())
                },
            },
        }
    }

    fn check_new_key(
        &mut self,
        d: &str,
        t: &str,
        s: &TableSchema,
        op: &AlterTableOperation,
        store: &Store,
        cx: &Context,
    ) -> (r: DbResult<()>)
        requires
            store.wf(),
        ensures
            match r {
                Ok(_) => key_step(old(self)@, d@, t@, s@, op@, store@, cx@) == Ok::<
                    ShadowModel,
                    Seq<char>,
                >(final(self)@),
                Err(e) => key_step(old(self)@, d@, t@, s@, op@, store@, cx@) == Err::<
                    ShadowModel,
                    Seq<char>,
                >(e.message@),
            },
    {
        match altered::new_key_constraint(op) {
            None => Ok(()),
            Some(key) => match self.look_up(d, t, s, store, cx) {
                Err(e) => Err(e),
                Ok(full) => altered::validate_rows_for_new_key(
                    &full,
                    &key.1,
                    key.0.as_str(),
                    key.2,
                ),
            },
        }
    }

    pub(crate) fn alter(
        &mut self,
        d: &str,
        t: &str,
        op: &AlterTableOperation,
        store: &Store,
        cx: &Context,
    ) -> (r: DbResult<()>)
        requires
            store.wf(),
        ensures
            match r {
                Ok(_) => alter_step(old(self)@, d@, t@, op@, store@, cx@) == Ok::<
                    ShadowModel,
                    Seq<char>,
                >(final(self)@),
                Err(e) => alter_step(old(self)@, d@, t@, op@, store@, cx@) == Err::<
                    ShadowModel,
                    Seq<char>,
                >(e.message@),
            },
    {
        proof {
            reveal(alter_step);
        }
        match validate_alter_column_dependencies(&self.catalog, d, t, op) {
            Err(e) => {
                return Err(e);
            },
            Ok(_) => {},
        }
        match self.follow(d, t, op, store) {
            Err(e) => {
                return Err(e);
            },
            Ok(_) => {},
        }
        let mut s = match validate::find_schema(&self.catalog, d, t) {
            None => {
                return Err(database::no_table_error(t));
            },
            Some(s) => s.clone(),
        };
        match alter::apply_alter_schema(&mut s, op) {
            Err(e) => {
                return Err(e);
            },
            Ok(_) => {},
        }
        let copy = s.clone();
        assoc::set_nested(&mut self.catalog, d, t, copy);
        match self.check_new_key(d, t, &s, op, store, cx) {
            Err(e) => {
                return Err(e);
            },
            Ok(_) => {},
        }
        match op {
            AlterTableOperation::AddCheck { name: _, definition: _ } => self.validate_added_check(
                d,
                t,
                &s,
                store,
                cx,
            ),
            AlterTableOperation::AddForeignKey { name, definition: _ } => {
                self.validate_added_foreign_key(d, t, name.as_str(), store, cx)
            },
            _ => Ok(()),
        }
    }
}

} // verus!
