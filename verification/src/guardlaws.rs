//! What is refused and what is let through: altering tables, procedures, and settings from the
//! environment.
use crate::alter;
use crate::alter::OperationModel;
use crate::altercheck;
use crate::altered;
use crate::assoc;
use crate::batch;
use crate::checks;
use crate::commands::CommandModel;
use crate::config;
use crate::config::{ConfigModel, Environment};
use crate::database;
use crate::database::ProcedureList;
use crate::fkeys;
use crate::fkeys::ForeignKeyModel;
use crate::images;
use crate::keylaws;
use crate::keylaws::{has_key, has_parent};
use crate::num;
use crate::pairs;
use crate::predicate::ContextModel;
use crate::row::RowModel;
use crate::schema;
use crate::schema::{ProcedureModel, SchemaModel};
use crate::store::StoreModel;
use crate::text;
use crate::validate;
use crate::validate::{ShadowModel, TablesModel};
use crate::values;
use vstd::prelude::*;

verus! {

// ---------------------------------------------------------------------------------------------
// Columns in use
// ---------------------------------------------------------------------------------------------
/// Whether a key of a child table uses a column of a table, on either side.
pub open spec fn uses(k: ForeignKeyModel, child: Seq<char>, t: Seq<char>, column: Seq<char>) -> bool {
    (child == t && k.child_columns.contains(column)) || (k.parent_table == t
        && k.parent_columns.contains(column))
}

proof fn using_means(
    keys: Seq<ForeignKeyModel>,
    child: Seq<char>,
    t: Seq<char>,
    column: Seq<char>,
    at: int,
)
    requires
        0 <= at <= keys.len(),
    ensures
        altercheck::using_key_from(keys, child, t, column, at) is Some <==> exists|i: int|
            at <= i < keys.len() && uses(#[trigger] keys[i], child, t, column),
    decreases keys.len() - at,
{
    if at < keys.len() {
        using_means(keys, child, t, column, at + 1);
        assert(uses(keys[at], child, t, column) == altercheck::key_uses(
            keys[at],
            child,
            t,
            column,
        ));
    }
}

proof fn using_any(tables: TablesModel, t: Seq<char>, column: Seq<char>, at: int, n: int, i: int)
    requires
        0 <= at <= n < tables.len(),
        0 <= i < fkeys::foreign_keys(tables[n].0, tables[n].1).len(),
        uses(fkeys::foreign_keys(tables[n].0, tables[n].1)[i], tables[n].0, t, column),
    ensures
        altercheck::using_key(tables, t, column, at) is Some,
    decreases n - at,
{
    using_means(
        fkeys::foreign_keys(tables[at].0, tables[at].1),
        tables[at].0,
        t,
        column,
        0,
    );
    if at < n {
        using_any(tables, t, column, at + 1, n, i);
    }
}

proof fn using_none(tables: TablesModel, t: Seq<char>, column: Seq<char>, at: int)
    requires
        0 <= at <= tables.len(),
        forall|n: int, i: int|
            0 <= n < tables.len() && 0 <= i < fkeys::foreign_keys(
                tables[n].0,
                tables[n].1,
            ).len() ==> !uses(
                #[trigger] fkeys::foreign_keys(tables[n].0, tables[n].1)[i],
                tables[n].0,
                t,
                column,
            ),
    ensures
        altercheck::using_key(tables, t, column, at) is None,
    decreases tables.len() - at,
{
    if at < tables.len() {
        using_means(
            fkeys::foreign_keys(tables[at].0, tables[at].1),
            tables[at].0,
            t,
            column,
            0,
        );
        using_none(tables, t, column, at + 1);
    }
}

proof fn check_uses(list: Seq<(Seq<char>, Seq<char>)>, column: Seq<char>, at: int)
    requires
        0 <= at <= list.len(),
    ensures
        altercheck::using_check(list, column, at) is Some <==> exists|i: int|
            at <= i < list.len() && altered::mentions((#[trigger] list[i]).1, column),
    decreases list.len() - at,
{
    if at < list.len() {
        check_uses(list, column, at + 1);
    }
}

proof fn dependency_refuses(
    sh: ShadowModel,
    d: Seq<char>,
    t: Seq<char>,
    op: OperationModel,
    s: StoreModel,
    cx: ContextModel,
)
    requires
        altercheck::dependency(sh.catalog, d, t, op) is Some,
    ensures
        batch::check_command(
            sh,
            CommandModel::AlterTable { database: d, table: t, operation: op },
            s,
            cx,
        ) is Err,
{
    assert(altercheck::alter_step(sh, d, t, op, s, cx) is Err) by {
        reveal(altercheck::alter_step);
    }
    reveal(batch::check_command);
}

proof fn targets(column: Seq<char>, new_name: Seq<char>)
    ensures
        altered::target_column(OperationModel::DropColumn(column)) == Some(column),
        new_name != column ==> altered::target_column(
            OperationModel::RenameColumn(column, new_name),
        ) == Some(column),
{
    reveal(altered::target_column);
}

/// A column that a foreign key of the database uses, on either side, is neither dropped nor
/// renamed.
pub proof fn columns_in_foreign_keys_stay(
    sh: ShadowModel,
    d: Seq<char>,
    t: Seq<char>,
    column: Seq<char>,
    new_name: Seq<char>,
    s: StoreModel,
    cx: ContextModel,
    tables: TablesModel,
    n: int,
    i: int,
)
    requires
        assoc::lookup(sh.catalog, d) == Some(tables),
        0 <= n < tables.len(),
        0 <= i < fkeys::foreign_keys(tables[n].0, tables[n].1).len(),
        uses(fkeys::foreign_keys(tables[n].0, tables[n].1)[i], tables[n].0, t, column),
        new_name != column,
    ensures
        batch::check_command(
            sh,
            CommandModel::AlterTable {
                database: d,
                table: t,
                operation: OperationModel::DropColumn(column),
            },
            s,
            cx,
        ) is Err,
        batch::check_command(
            sh,
            CommandModel::AlterTable {
                database: d,
                table: t,
                operation: OperationModel::RenameColumn(column, new_name),
            },
            s,
            cx,
        ) is Err,
{
    using_any(tables, t, column, 0, n, i);
    reveal(altercheck::dependency);
    targets(column, new_name);
    dependency_refuses(sh, d, t, OperationModel::DropColumn(column), s, cx);
    dependency_refuses(sh, d, t, OperationModel::RenameColumn(column, new_name), s, cx);
}

/// A column that a check of its table mentions is neither dropped nor renamed.
pub proof fn columns_in_checks_stay(
    sh: ShadowModel,
    d: Seq<char>,
    t: Seq<char>,
    column: Seq<char>,
    new_name: Seq<char>,
    s: StoreModel,
    cx: ContextModel,
    sc: SchemaModel,
    i: int,
)
    requires
        validate::schema_in(sh.catalog, d, t) == Some(sc),
        0 <= i < checks::checks(sc).len(),
        altered::mentions(checks::checks(sc)[i].1, column),
        new_name != column,
    ensures
        batch::check_command(
            sh,
            CommandModel::AlterTable {
                database: d,
                table: t,
                operation: OperationModel::DropColumn(column),
            },
            s,
            cx,
        ) is Err,
        batch::check_command(
            sh,
            CommandModel::AlterTable {
                database: d,
                table: t,
                operation: OperationModel::RenameColumn(column, new_name),
            },
            s,
            cx,
        ) is Err,
{
    check_uses(checks::checks(sc), column, 0);
    reveal(altercheck::dependency);
    targets(column, new_name);
    dependency_refuses(sh, d, t, OperationModel::DropColumn(column), s, cx);
    dependency_refuses(sh, d, t, OperationModel::RenameColumn(column, new_name), s, cx);
}

/// A column that nothing uses is in nobody's way.
pub proof fn unused_columns_are_free(
    sh: ShadowModel,
    d: Seq<char>,
    t: Seq<char>,
    column: Seq<char>,
    tables: TablesModel,
)
    requires
        assoc::lookup(sh.catalog, d) == Some(tables),
        forall|n: int, i: int|
            0 <= n < tables.len() && 0 <= i < fkeys::foreign_keys(
                tables[n].0,
                tables[n].1,
            ).len() ==> !uses(
                #[trigger] fkeys::foreign_keys(tables[n].0, tables[n].1)[i],
                tables[n].0,
                t,
                column,
            ),
        assoc::lookup(tables, t) matches Some(sc) ==> forall|i: int|
            0 <= i < checks::checks(sc).len() ==> !altered::mentions(
                (#[trigger] checks::checks(sc)[i]).1,
                column,
            ),
    ensures
        altercheck::dependency(sh.catalog, d, t, OperationModel::DropColumn(column)) is None,
{
    reveal(altercheck::dependency);
    targets(column, column);
    using_none(tables, t, column, 0);
    match assoc::lookup(tables, t) {
        Some(sc) => check_uses(checks::checks(sc), column, 0),
        None => {},
    }
}

// ---------------------------------------------------------------------------------------------
// New foreign keys
// ---------------------------------------------------------------------------------------------
proof fn missing_none(columns: Seq<schema::ColumnModel>, names: Seq<Seq<char>>, at: int)
    requires
        0 <= at <= names.len(),
        alter::missing_from(columns, names, at) is None,
    ensures
        forall|i: int|
            at <= i < names.len() ==> schema::has_column(columns, #[trigger] names[i]),
    decreases names.len() - at,
{
    if at < names.len() {
        missing_none(columns, names, at + 1);
    }
}

proof fn key_at_is(keys: Seq<ForeignKeyModel>, name: Seq<char>, at: int)
    requires
        0 <= at <= keys.len(),
    ensures
        altercheck::key_at(keys, name, at) matches Some(i) ==> at <= i < keys.len() && keys[i].name
            == name,
    decreases keys.len() - at,
{
    if at < keys.len() {
        key_at_is(keys, name, at + 1);
    }
}

/// A foreign key that can be added is one of its table and of the name asked for; its columns are
/// there on both sides, and on the other side they are the primary key or an index.
pub proof fn foreign_keys_refer_to_keys(tables: TablesModel, t: Seq<char>, name: Seq<char>)
    requires
        altercheck::added_key(tables, t, name) is Ok,
    ensures
        ({
            let (k, child, parent) = altercheck::added_key(tables, t, name)->Ok_0;
            &&& assoc::lookup(tables, t) == Some(child)
            &&& assoc::lookup(tables, k.parent_table) == Some(parent)
            &&& fkeys::foreign_keys(t, child).contains(k)
            &&& k.name == name
            &&& forall|i: int|
                0 <= i < k.child_columns.len() ==> schema::has_column(
                    child.columns,
                    #[trigger] k.child_columns[i],
                )
            &&& forall|i: int|
                0 <= i < k.parent_columns.len() ==> schema::has_column(
                    parent.columns,
                    #[trigger] k.parent_columns[i],
                )
            &&& schema::primary_key(parent) == k.parent_columns || exists|i: int|
                0 <= i < parent.indexes.len() && (#[trigger] parent.indexes[i]).columns
                    == k.parent_columns
        }),
{
    let (k, child, parent) = altercheck::added_key(tables, t, name)->Ok_0;
    key_at_is(fkeys::foreign_keys(t, child), name, 0);
    missing_none(child.columns, k.child_columns, 0);
    missing_none(parent.columns, k.parent_columns, 0);
}

/// A foreign key is added exactly where every child row has a parent among the rows that count.
pub proof fn a_new_foreign_key_holds(
    sh: ShadowModel,
    d: Seq<char>,
    t: Seq<char>,
    name: Seq<char>,
    s: StoreModel,
    cx: ContextModel,
    tables: TablesModel,
    children: Seq<RowModel>,
    parents: Seq<RowModel>,
)
    requires
        assoc::lookup(sh.catalog, d) == Some(tables),
        altercheck::added_key(tables, t, name) matches Ok(found) && found.0.parent_table != t && (
        validate::image(sh.altered, sh, s, d, t) matches Ok(a) && images::materialized_all(
            a,
            found.1,
            cx.moment,
        ) == Ok::<Seq<RowModel>, Seq<char>>(children)) && (validate::image(
            sh.altered,
            sh,
            s,
            d,
            found.0.parent_table,
        ) matches Ok(b) && images::materialized_all(b, found.2, cx.moment) == Ok::<
            Seq<RowModel>,
            Seq<char>,
        >(parents)),
    ensures
        ({
            let k = (altercheck::added_key(tables, t, name)->Ok_0).0;
            altercheck::foreign_key_step(sh, d, t, name, s, cx) is Ok <==> forall|i: int|
                0 <= i < children.len() ==> has_parent(#[trigger] children[i], parents, k)
        }),
{
    reveal(altercheck::foreign_key_step);
    let (k, child, parent) = altercheck::added_key(tables, t, name)->Ok_0;
    let a = validate::image(sh.altered, sh, s, d, t)->Ok_0;
    pairs::set_then_pair(sh.altered, d, t, a, d, k.parent_table);
    assert forall|i: int| 0 <= i < children.len() implies has_parent(
        #[trigger] children[i],
        parents,
        k,
    ) == (fkeys::row_key(children[i], k.child_columns) is None || altercheck::any_row_key(
        parents,
        k.parent_columns,
        fkeys::row_key(children[i], k.child_columns),
    )) by {
        keylaws::parent_means(children[i], parents, k);
    }
}

// ---------------------------------------------------------------------------------------------
// New keys
// ---------------------------------------------------------------------------------------------
proof fn lacking_means(r: RowModel, columns: Seq<Seq<char>>, at: int)
    requires
        0 <= at <= columns.len(),
    ensures
        altered::lacking_from(r, columns, at) is None <==> forall|i: int|
            at <= i < columns.len() ==> r.present(#[trigger] columns[i]) is Some,
    decreases columns.len() - at,
{
    if at < columns.len() {
        lacking_means(r, columns, at + 1);
    }
}

/// Whether a row has a value that is not NULL in each of some columns.
pub open spec fn whole(r: RowModel, columns: Seq<Seq<char>>) -> bool {
    forall|i: int| 0 <= i < columns.len() ==> r.present(#[trigger] columns[i]) is Some
}

proof fn fits_means(
    rows: Seq<RowModel>,
    columns: Seq<Seq<char>>,
    name: Seq<char>,
    nullable: bool,
    seen: Set<Seq<u8>>,
    at: int,
)
    requires
        0 <= at <= rows.len(),
        altered::fits_from(rows, columns, name, nullable, seen, at) is Ok,
    ensures
        !nullable ==> forall|i: int| at <= i < rows.len() ==> whole(#[trigger] rows[i], columns),
        forall|i: int|
            at <= i < rows.len() && whole(#[trigger] rows[i], columns) ==> (values::key(
                rows[i],
                columns,
            ) matches Some(k) && !seen.contains(k)),
        forall|i: int, j: int|
            at <= i < j < rows.len() && whole(rows[i], columns) && whole(rows[j], columns)
                ==> values::key(#[trigger] rows[i], columns) != values::key(
                #[trigger] rows[j],
                columns,
            ),
    decreases rows.len() - at,
{
    if at < rows.len() {
        lacking_means(rows[at], columns, 0);
        match altered::lacking_from(rows[at], columns, 0) {
            Some(_) => {
                fits_means(rows, columns, name, nullable, seen, at + 1);
            },
            None => {
                let k = values::key(rows[at], columns)->0;
                fits_means(rows, columns, name, nullable, seen.insert(k), at + 1);
            },
        }
    }
}

/// Rows fit a new key only where no two of them share it; in a primary key, only where none of them
/// lacks a part of it.
pub proof fn new_keys_are_unique(
    rows: Seq<RowModel>,
    columns: Seq<Seq<char>>,
    name: Seq<char>,
    nullable: bool,
    i: int,
    j: int,
)
    requires
        altered::fits_key(rows, columns, name, nullable) is Ok,
        0 <= i < j < rows.len(),
    ensures
        !nullable ==> whole(rows[i], columns) && whole(rows[j], columns),
        whole(rows[i], columns) && whole(rows[j], columns) ==> values::key(rows[i], columns)
            != values::key(rows[j], columns),
{
    fits_means(rows, columns, name, nullable, Set::empty(), 0);
}

/// A primary key takes no NULL, a unique index does; other indexes are no keys.
pub proof fn these_operations_add_keys(names: Seq<Seq<char>>, x: schema::IndexModel)
    ensures
        altered::new_key(OperationModel::AddPrimaryKey(names)) == Some(("PRIMARY"@, names, false)),
        x.unique ==> altered::new_key(OperationModel::AddIndex(x)) == Some(
            (x.name, x.columns, true),
        ),
        !x.unique ==> altered::new_key(OperationModel::AddIndex(x)) is None,
{
}

// ---------------------------------------------------------------------------------------------
// Procedures
// ---------------------------------------------------------------------------------------------
pub proof fn fold_is(list: ProcedureList, name: Seq<char>, at: int)
    requires
        0 <= at <= list.len(),
    ensures
        database::fold_entry(list, name, at) matches Some(i) ==> at <= i < list.len()
            && text::same_fold(list[i].0, name),
        database::fold_entry(list, name, at) is None ==> forall|i: int|
            at <= i < list.len() ==> !text::same_fold((#[trigger] list[i]).0, name),
    decreases list.len() - at,
{
    if at < list.len() {
        fold_is(list, name, at + 1);
    }
}

/// A procedure is made where none has its name in any case; from then on it is found, and others
/// are as they were.
pub proof fn a_made_procedure_is_found(list: ProcedureList, p: ProcedureModel, other: Seq<char>)
    ensures
        database::procedure_added(list, p) is Err <==> exists|i: int|
            0 <= i < list.len() && text::same_fold((#[trigger] list[i]).0, p.name),
        database::procedure_added(list, p) matches Ok(after) ==> {
            &&& assoc::lookup(after, p.name) == Some(p)
            &&& other != p.name ==> assoc::lookup(after, other) == assoc::lookup(list, other)
            &&& database::procedure_added(after, p) is Err
        },
{
    fold_is(list, p.name, 0);
    assoc::set_then_lookup(list, p.name, p, other);
    match database::procedure_added(list, p) {
        Ok(after) => {
            fold_is(after, p.name, 0);
            assoc::entry_found(after, p.name, 0);
            let i = assoc::entry_from(after, p.name, 0)->0;
            assert(after[i].0 == p.name);
        },
        Err(_) => {},
    }
}

/// A procedure is dropped by its name in any case; it is gone, and those of other names stay.
pub proof fn a_dropped_procedure_is_gone(list: ProcedureList, name: Seq<char>, other: Seq<char>)
    ensures
        database::procedure_removed(list, name) is Ok <==> exists|i: int|
            0 <= i < list.len() && text::same_fold((#[trigger] list[i]).0, name),
        database::procedure_removed(list, name) matches Ok(after) ==> {
            &&& !text::same_fold(other, name) ==> assoc::lookup(after, other) == assoc::lookup(
                list,
                other,
            )
            &&& exists|i: int|
                0 <= i < list.len() && text::same_fold((#[trigger] list[i]).0, name)
                    && assoc::lookup(after, list[i].0) is None
        },
{
    fold_is(list, name, 0);
    match database::fold_entry(list, name, 0) {
        Some(i) => {
            assoc::remove_then_lookup(list, list[i].0, other);
            assoc::remove_then_lookup(list, list[i].0, list[i].0);
            assert(text::same_fold(list[i].0, name));
        },
        None => {},
    }
}

/// Changing a procedure changes what it says, and neither its name nor another procedure.
pub proof fn a_changed_procedure_says_something_else(
    list: ProcedureList,
    name: Seq<char>,
    sql: Seq<char>,
)
    ensures
        database::procedure_changed(list, name, sql) is Ok <==> exists|i: int|
            0 <= i < list.len() && text::same_fold((#[trigger] list[i]).0, name),
        database::procedure_changed(list, name, sql) matches Ok(after) ==> {
            &&& after.len() == list.len()
            &&& exists|i: int|
                0 <= i < list.len() && text::same_fold((#[trigger] list[i]).0, name) && after[i].0
                    == list[i].0 && after[i].1.create_sql == sql && after[i].1.name == list[i].1.name
                    && forall|j: int| 0 <= j < list.len() && j != i ==> after[j] == list[j]
        },
{
    fold_is(list, name, 0);
    match database::fold_entry(list, name, 0) {
        Some(i) => {
            assert(text::same_fold(list[i].0, name));
        },
        None => {},
    }
}

// ---------------------------------------------------------------------------------------------
// Settings from the environment
// ---------------------------------------------------------------------------------------------
/// A variable that holds a number sets it, one that is not set changes nothing, and one that holds
/// no number is an error.
pub proof fn numbers_in_variables_are_taken(n: nat, old: nat, max: nat, v: Seq<char>)
    ensures
        n <= max ==> config::number_or(Some(num::decimal(n)), old, max) == Ok::<nat, Seq<char>>(n),
        config::number_or(None, old, max) == Ok::<nat, Seq<char>>(old),
        num::parsed(v, max) is None ==> config::number_or(Some(v), old, max) is Err,
{
    if n <= max {
        num::parsed_decimal(n, max);
    }
}

/// The variables of the environment set what they name, and leave the rest of the configuration as
/// it was.
pub proof fn variables_set_what_they_name(c: ConfigModel, e: Environment, n: nat)
    requires
        config::overridden(c, e) is Ok,
    ensures
        ({
            let o = config::overridden(c, e)->Ok_0;
            &&& e.port is None ==> o.server.port == c.server.port
            &&& e.port.deep_view() == Some(num::decimal(n)) && n <= u16::MAX ==> o.server.port == n
            &&& e.thread_count is None ==> o.server.thread_count == c.server.thread_count
            &&& e.thread_count.deep_view() == Some(num::decimal(n)) && n <= u32::MAX
                ==> o.server.thread_count == n
            &&& e.http_port is None ==> o.http.port == c.http.port
            &&& e.http_port.deep_view() == Some(num::decimal(n)) && n <= u16::MAX ==> o.http.port
                == n
            &&& e.group_commit_window_us is None ==> o.storage.group_commit_window_us
                == c.storage.group_commit_window_us
            &&& e.group_commit_window_us.deep_view() == Some(num::decimal(n)) && n <= u64::MAX
                ==> o.storage.group_commit_window_us == n
            &&& e.max_load_data_size is None ==> o.security.max_load_data_size
                == c.security.max_load_data_size
            &&& e.max_load_data_size.deep_view() == Some(num::decimal(n)) && n <= usize::MAX
                ==> o.security.max_load_data_size == n
            &&& e.data_dir matches Some(v) ==> o.storage.data_dir == v@
            &&& e.data_dir is None ==> o.storage.data_dir == c.storage.data_dir
            &&& e.log_level matches Some(v) ==> o.logging.level == v@
            &&& e.log_level is None ==> o.logging.level == c.logging.level
            &&& e.secure_file_priv matches Some(v) ==> o.security.secure_file_priv == Some(v@)
            &&& e.secure_file_priv is None ==> o.security.secure_file_priv
                == c.security.secure_file_priv
            &&& e.local_infile is None ==> o.security.local_infile == c.security.local_infile
            &&& e.enforce_strong_passwords is None ==> o.security.enforce_strong_passwords
                == c.security.enforce_strong_passwords
            &&& e.root_password matches Ok(v) && (v matches Some(p) ==> o.security.default_password
                == p@) && (v is None ==> o.security.default_password == c.security.default_password)
            &&& e.admin_password matches Ok(v) && (v matches Some(p) ==> o.http.admin_password == p@)
                && (v is None ==> o.http.admin_password == c.http.admin_password)
            &&& o.memory == c.memory && o.backup == c.backup && o.agent == c.agent
            &&& o.character_set == c.character_set
            &&& o.server.host == c.server.host && o.http.host == c.http.host
            &&& o.security.tls_cert == c.security.tls_cert && o.security.tls_key
                == c.security.tls_key
            &&& o.security.require_secure_transport == c.security.require_secure_transport
        }),
{
    if n <= u16::MAX {
        num::parsed_decimal(n, u16::MAX as nat);
    }
    if n <= u32::MAX {
        num::parsed_decimal(n, u32::MAX as nat);
    }
    if n <= u64::MAX {
        num::parsed_decimal(n, u64::MAX as nat);
    }
    if n <= usize::MAX {
        num::parsed_decimal(n, usize::MAX as nat);
    }
}

/// A secret is the value of its variable or what its file holds, without the end of its last line;
/// both together are an error, and so is an empty one.
pub proof fn secrets_come_from_one_place(
    name: Seq<char>,
    v: Seq<char>,
    path: Seq<char>,
    e: Seq<char>,
)
    ensures
        v.len() > 0 ==> config::secret_of(name, Some(v), None) == Ok::<Option<Seq<char>>, Seq<char>>(
            Some(v),
        ),
        config::secret_of(name, None, None) == Ok::<Option<Seq<char>>, Seq<char>>(None),
        config::secret_of(name, Some(v), Some((path, Ok::<Seq<char>, Seq<char>>(v)))) is Err,
        config::secret_of(name, None, Some((path, Err::<Seq<char>, Seq<char>>(e)))) is Err,
        config::secret_of(name, Some(Seq::empty()), None) is Err,
        v.len() > 0 && v.last() != '\n' && v.last() != '\r' ==> {
            &&& config::secret_of(name, None, Some((path, Ok::<Seq<char>, Seq<char>>(v)))) == Ok::<
                Option<Seq<char>>,
                Seq<char>,
            >(Some(v))
            &&& config::secret_of(name, None, Some((path, Ok::<Seq<char>, Seq<char>>(v.push('\n')))))
                == Ok::<Option<Seq<char>>, Seq<char>>(Some(v))
            &&& config::secret_of(
                name,
                None,
                Some((path, Ok::<Seq<char>, Seq<char>>(v.push('\r').push('\n')))),
            ) == Ok::<Option<Seq<char>>, Seq<char>>(Some(v))
        },
{
    assert(v.push('\n').drop_last() =~= v);
    assert(v.push('\r').push('\n').drop_last() =~= v.push('\r'));
    assert(v.push('\r').drop_last() =~= v);
}

} // verus!
