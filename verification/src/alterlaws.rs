//! What ALTER TABLE leaves of a table.
use crate::alter;
use crate::alter::{OperationModel, PositionModel};
use crate::altered;
use crate::altered::MutationModel;
use crate::assoc;
use crate::database;
use crate::database::DatabaseModel;
use crate::row::RowModel;
use crate::rowlaws;
use crate::rowlaws::{agree, carries, same_cells};
use crate::schema;
use crate::schema::{ColumnModel, MomentModel, SchemaModel, TableEngine};
use crate::sqltext;
use crate::table::TableModel;
use crate::tablelaws;
use crate::text;
use crate::values;
use vstd::prelude::*;

verus! {

/// The table of a name after an operation.
pub open spec fn table_after(
    db: DatabaseModel,
    name: Seq<char>,
    op: OperationModel,
    m: MomentModel,
) -> TableModel {
    database::table_of(database::table_altered(db, name, op, m).0, name)->0
}

/// Whether an operation succeeds on a MEMORY table, or on a table whose rows stand on its pages.
/// (Staged rows stay in place while the pages are rewritten.)
pub open spec fn alters(db: DatabaseModel, name: Seq<char>, op: OperationModel, m: MomentModel) -> bool {
    database::table_altered(db, name, op, m).1 is Ok && database::table_of(db, name) is Some
        && (database::table_of(db, name)->0.schema.engine == TableEngine::Memory
        || database::table_of(db, name)->0.overlay is None)
}

/// What an operation makes of the rows: as many, each as the table stores what the operation made
/// of it.
proof fn altered_rows(db: DatabaseModel, name: Seq<char>, op: OperationModel, m: MomentModel)
    requires
        alters(db, name, op, m),
    ensures
        ({
            let t = database::table_of(db, name)->0;
            let u = table_after(db, name, op, m);
            let next = (alter::altered(t.schema, op)->Ok_0).0;
            &&& alter::altered(t.schema, op) is Ok
            &&& database::table_of(database::table_altered(db, name, op, m).0, name) is Some
            &&& tablelaws::same_schema(next, u.schema)
            &&& match altered::mutation_of(op) {
                None => u.rows() == t.rows(),
                Some(mutation) => tablelaws::holds(
                    u.rows(),
                    altered::all_mutated(t.rows(), mutation),
                    next,
                    m,
                ),
            }
        }),
{
    reveal(database::table_altered);
    let t = database::table_of(db, name)->0;
    let next = (alter::altered(t.schema, op)->Ok_0).0;
    alter::altered_keeps_pages(t.schema, op);
    let between = TableModel { schema: next, ..t };
    let changed = database::with_table(db, name, between);
    assoc::set_then_lookup(db.tables, name, between, name);
    assert(database::table_of(changed, name) == Some(between));
    match altered::mutation_of(op) {
        None => {
            tablelaws::recounting_keeps_tables(changed, name);
        },
        Some(mutation) => {
            let rows = altered::all_mutated(t.rows(), mutation);
            tablelaws::rows_replaced_holds(changed, name, rows, m);
            let after = database::rows_replaced(changed, name, rows, m)->Ok_0;
            tablelaws::recounting_keeps_tables(after, name);
        },
    }
}

proof fn mutated_row(
    db: DatabaseModel,
    name: Seq<char>,
    op: OperationModel,
    m: MomentModel,
    mutation: MutationModel,
    i: int,
)
    requires
        alters(db, name, op, m),
        altered::mutation_of(op) == Some(mutation),
        0 <= i < database::table_of(db, name)->0.rows().len(),
    ensures
        table_after(db, name, op, m).rows().len() == database::table_of(db, name)->0.rows().len(),
        carries(
            altered::mutated(database::table_of(db, name)->0.rows()[i], mutation),
            table_after(db, name, op, m).rows()[i],
        ),
{
    altered_rows(db, name, op, m);
    let t = database::table_of(db, name)->0;
    let u = table_after(db, name, op, m);
    let next = (alter::altered(t.schema, op)->Ok_0).0;
    let r = altered::mutated(t.rows()[i], mutation);
    assert(altered::all_mutated(t.rows(), mutation)[i] == r);
    let x = u.rows()[i];
    let full = values::materialized(r, next, m)->Ok_0;
    assert(same_cells(x, full));
    rowlaws::a_stored_row_carries_its_values(r, next, m);
    tablelaws::carried(r, full, x);
}

/// Whether an operation gives a column another name.
pub open spec fn renames(op: OperationModel, old_name: Seq<char>, new_name: Seq<char>) -> bool {
    match op {
        OperationModel::RenameColumn(a, b) => a == old_name && b == new_name,
        OperationModel::ChangeColumn(a, c, _) => a == old_name && c.name == new_name,
        _ => false,
    }
}

/// After a column is renamed, the table has as many rows as before. Each has under the new name
/// the value, or the NULL, that it had under the old one, and under every other name what it had
/// there.
pub proof fn renaming_carries_values(
    db: DatabaseModel,
    name: Seq<char>,
    op: OperationModel,
    old_name: Seq<char>,
    new_name: Seq<char>,
    m: MomentModel,
    i: int,
    other: Seq<char>,
)
    requires
        renames(op, old_name, new_name),
        alters(db, name, op, m),
        0 <= i < database::table_of(db, name)->0.rows().len(),
        rowlaws::tidy(database::table_of(db, name)->0.rows()[i]),
        database::table_of(db, name)->0.rows()[i].contains(old_name),
        text::same_fold(old_name, new_name) || !database::table_of(db, name)->0.rows()[i].contains(
            new_name,
        ),
    ensures
        ({
            let r = database::table_of(db, name)->0.rows()[i];
            let x = table_after(db, name, op, m).rows()[i];
            &&& table_after(db, name, op, m).rows().len() == database::table_of(
                db,
                name,
            )->0.rows().len()
            &&& x.contains(new_name)
            &&& x.get(new_name) == r.get(old_name)
            &&& x.is_null(new_name) == r.is_null(old_name)
            &&& r.contains(other) && !text::same_fold(other, old_name) && !text::same_fold(
                other,
                new_name,
            ) ==> agree(r, x, other)
        }),
{
    let r = database::table_of(db, name)->0.rows()[i];
    altered_rows(db, name, op, m);
    if old_name != new_name {
        mutated_row(db, name, op, m, MutationModel::Rename(old_name, new_name), i);
        let between = r.renamed(old_name, new_name);
        rowlaws::renamed_then_get(r, old_name, new_name, other);
        assert(between.contains(new_name));
        let x = table_after(db, name, op, m).rows()[i];
        assert(agree(between, x, new_name));
        if r.contains(other) && !text::same_fold(other, old_name) && !text::same_fold(
            other,
            new_name,
        ) {
            assert(between.contains(other));
            assert(agree(between, x, other));
        }
    }
}

/// After a column is dropped, the table has as many rows as before. Each has under every other
/// name what it had there; where it has nothing to fill in, it has nothing under the column's name.
pub proof fn dropping_takes_one_column(
    db: DatabaseModel,
    name: Seq<char>,
    column: Seq<char>,
    m: MomentModel,
    i: int,
    other: Seq<char>,
)
    requires
        alters(db, name, OperationModel::DropColumn(column), m),
        0 <= i < database::table_of(db, name)->0.rows().len(),
    ensures
        ({
            let t = database::table_of(db, name)->0;
            let r = t.rows()[i];
            let u = table_after(db, name, OperationModel::DropColumn(column), m);
            let x = u.rows()[i];
            &&& u.rows().len() == t.rows().len()
            &&& r.contains(other) && !text::same_fold(column, other) ==> agree(r, x, other)
            &&& rowlaws::complete(r.without(column), u.schema) ==> !x.contains(column) && !x.is_null(
                column,
            )
        }),
{
    let op = OperationModel::DropColumn(column);
    let t = database::table_of(db, name)->0;
    let r = t.rows()[i];
    let u = table_after(db, name, op, m);
    let x = u.rows()[i];
    altered_rows(db, name, op, m);
    mutated_row(db, name, op, m, MutationModel::Drop(column), i);
    let between = r.without(column);
    rowlaws::removed_then_get(r, column, other);
    if r.contains(other) && !text::same_fold(column, other) {
        assert(between.contains(other));
        assert(agree(between, x, other));
    }
    if rowlaws::complete(between, u.schema) {
        let next = (alter::altered(t.schema, op)->Ok_0).0;
        assert(rowlaws::complete(between, next));
        assert(altered::all_mutated(t.rows(), MutationModel::Drop(column))[i] == between);
        rowlaws::a_stored_row_carries_its_values(between, next, m);
        assert(same_cells(x, between));
        tablelaws::same_cells_agree(x, between, column);
    }
}

/// Whether an operation adds a column.
pub open spec fn adds(op: OperationModel, c: ColumnModel) -> bool {
    match op {
        OperationModel::AddColumn(x) => x == c,
        OperationModel::AddColumnAt(x, _) => x == c,
        _ => false,
    }
}

/// After a column is added, the table has as many rows as before. Each has what it had, and under
/// the new name the column's default, or NULL where it has none.
pub proof fn adding_fills_in_the_default(
    db: DatabaseModel,
    name: Seq<char>,
    op: OperationModel,
    c: ColumnModel,
    m: MomentModel,
    i: int,
    k: int,
)
    requires
        adds(op, c),
        alters(db, name, op, m),
        0 <= i < database::table_of(db, name)->0.rows().len(),
        !database::table_of(db, name)->0.rows()[i].contains(c.name),
        ({
            let s = table_after(db, name, op, m).schema;
            &&& 0 <= k < s.columns.len()
            &&& s.columns[k] == c
            &&& sqltext::auto_increment(s) != Some(c.name)
            &&& forall|j: int|
                0 <= j < s.columns.len() && j != k ==> !text::same_fold(
                    (#[trigger] s.columns[j]).name,
                    c.name,
                )
        }),
    ensures
        ({
            let t = database::table_of(db, name)->0;
            let u = table_after(db, name, op, m);
            let x = u.rows()[i];
            &&& u.rows().len() == t.rows().len()
            &&& carries(t.rows()[i], x)
            &&& x.contains(c.name)
            &&& c.default is None ==> x.is_null(c.name)
            &&& c.default matches Some(d) ==> if text::same_fold(d, "NULL"@) {
                x.is_null(c.name)
            } else {
                &&& !x.is_null(c.name)
                &&& sqltext::timestamp_bytes(d, m) is None ==> x.get(c.name) == Some(
                    text::bytes_of(d),
                )
            }
        }),
{
    let t = database::table_of(db, name)->0;
    let r = t.rows()[i];
    let u = table_after(db, name, op, m);
    let next = (alter::altered(t.schema, op)->Ok_0).0;
    altered_rows(db, name, op, m);
    mutated_row(db, name, op, m, MutationModel::Materialize, i);
    assert(altered::all_mutated(t.rows(), MutationModel::Materialize)[i] == r);
    let x = u.rows()[i];
    assert(sqltext::auto_increment(next) == sqltext::auto_increment(u.schema));
    rowlaws::a_missing_column_takes_its_default(r, next, m, k);
    let full = values::materialized(r, next, m)->Ok_0;
    tablelaws::same_cells_agree(x, full, c.name);
}

/// Whether an operation is on keys, indexes, constraints, triggers or the form of a column, and
/// not on which columns there are.
pub open spec fn leaves_columns(op: OperationModel) -> bool {
    match op {
        OperationModel::ModifyColumn(_) => true,
        OperationModel::ModifyColumnAt(_, _) => true,
        OperationModel::AddPrimaryKey(_) => true,
        OperationModel::DropPrimaryKey => true,
        OperationModel::AddIndex(_) => true,
        OperationModel::DropIndex(_) => true,
        OperationModel::RenameIndex(_, _) => true,
        OperationModel::AddForeignKey(_, _) => true,
        OperationModel::DropForeignKey(_) => true,
        OperationModel::AddCheck(_, _) => true,
        OperationModel::DropCheck(_) => true,
        OperationModel::SetColumnDefault(_, _) => true,
        OperationModel::AddTrigger(_) => true,
        OperationModel::DropTrigger(_) => true,
        _ => false,
    }
}

/// An operation that leaves the columns leaves the rows, exactly.
pub proof fn other_operations_leave_the_rows(
    db: DatabaseModel,
    name: Seq<char>,
    op: OperationModel,
    m: MomentModel,
)
    requires
        leaves_columns(op),
        alters(db, name, op, m),
    ensures
        table_after(db, name, op, m).rows() == database::table_of(db, name)->0.rows(),
{
    altered_rows(db, name, op, m);
}

/// An operation on one table leaves the rows and the schemas of the others; one that fails before
/// the rows are touched leaves everything.
pub proof fn other_tables_are_not_altered(
    db: DatabaseModel,
    name: Seq<char>,
    op: OperationModel,
    m: MomentModel,
    other: Seq<char>,
)
    requires
        other != name,
    ensures
        match (
            database::table_of(database::table_altered(db, name, op, m).0, other),
            database::table_of(db, other),
        ) {
            (Some(a), Some(b)) => a.rows() == b.rows() && a.schema == b.schema,
            (None, None) => true,
            _ => false,
        },
        database::table_of(db, name) is None ==> database::table_altered(db, name, op, m).0 == db
            && database::table_altered(db, name, op, m).1 is Err,
{
    reveal(database::table_altered);
    match database::table_of(db, name) {
        None => {},
        Some(t) => {
            if alter::altered(t.schema, op) is Ok {
                let next = (alter::altered(t.schema, op)->Ok_0).0;
                let between = TableModel { schema: next, ..t };
                let changed = database::with_table(db, name, between);
                assoc::set_then_lookup(db.tables, name, between, other);
                tablelaws::recounting_keeps_tables(changed, other);
                match altered::mutation_of(op) {
                    None => {},
                    Some(mutation) => {
                        let rows = altered::all_mutated(t.rows(), mutation);
                        if database::rows_replaced(changed, name, rows, m) is Ok {
                            reveal(database::rows_written);
                            database::other_tables_keep_rows(changed, name, rows, false, m, other);
                            let after = database::rows_replaced(changed, name, rows, m)->Ok_0;
                            tablelaws::recounting_keeps_tables(after, other);
                        }
                    },
                }
            }
        },
    }
}

// ---------------------------------------------------------------------------------------------
// The schema
// ---------------------------------------------------------------------------------------------
/// The first column of a name.
proof fn column_place(columns: Seq<ColumnModel>, name: Seq<char>)
    ensures
        schema::column_at(columns, name, 0) matches Some(i) ==> 0 <= i < columns.len()
            && columns[i].name == name,
        schema::column_at(columns, name, 0) is None ==> forall|i: int|
            0 <= i < columns.len() ==> (#[trigger] columns[i]).name != name,
{
    altered::column_at_found(columns, name, 0);
}

/// Whether columns are others with one put in at a place.
pub open spec fn with_column_at(
    columns: Seq<ColumnModel>,
    more: Seq<ColumnModel>,
    i: int,
    c: ColumnModel,
) -> bool {
    &&& more.len() == columns.len() + 1
    &&& 0 <= i <= columns.len()
    &&& more[i] == c
    &&& forall|j: int| 0 <= j < i ==> (#[trigger] more[j]) == columns[j]
    &&& forall|j: int| i < j < more.len() ==> (#[trigger] more[j]) == columns[j - 1]
}

/// A column is added behind all others, or at the place that was asked for: first, or behind the
/// column that was named. A column of that name must not be there already.
pub proof fn a_column_is_added_at_its_place(s: SchemaModel, c: ColumnModel, p: PositionModel)
    ensures
        match alter::altered(s, OperationModel::AddColumn(c)) {
            Ok((next, _)) => with_column_at(
                s.columns,
                next.columns,
                s.columns.len() as int,
                c,
            ) && next.indexes == s.indexes && next.primary_key == s.primary_key,
            Err(_) => true,
        },
        alter::altered(s, OperationModel::AddColumn(c)) is Err <==> exists|j: int|
            0 <= j < s.columns.len() && (#[trigger] s.columns[j]).name == c.name,
        match alter::altered(s, OperationModel::AddColumnAt(c, p)) {
            Ok((next, _)) => match p {
                PositionModel::First => with_column_at(s.columns, next.columns, 0, c),
                PositionModel::After(n) => exists|k: int|
                    0 < k <= s.columns.len() && s.columns[k - 1].name == n && #[trigger]
                        with_column_at(s.columns, next.columns, k, c),
            },
            Err(_) => true,
        },
{
    column_place(s.columns, c.name);
    match p {
        PositionModel::First => {},
        PositionModel::After(n) => {
            column_place(s.columns, n);
            if alter::altered(s, OperationModel::AddColumnAt(c, p)) is Ok {
                let k = schema::column_at(s.columns, n, 0)->0 + 1;
                let next = (alter::altered(s, OperationModel::AddColumnAt(c, p))->Ok_0).0;
                assert(with_column_at(s.columns, next.columns, k, c));
            }
        },
    }
    if alter::altered(s, OperationModel::AddColumn(c)) is Err {
        let j = schema::column_at(s.columns, c.name, 0)->0;
        assert(s.columns[j].name == c.name);
    }
}

/// A dropped column is gone from the schema, and every other column is as it was, in its order.
pub proof fn a_dropped_column_is_gone(s: SchemaModel, name: Seq<char>)
    ensures
        match alter::altered(s, OperationModel::DropColumn(name)) {
            Ok((next, _)) => next.columns == s.columns.filter(|c: ColumnModel| c.name != name)
                && forall|i: int|
                0 <= i < next.columns.len() ==> (#[trigger] next.columns[i]).name != name,
            Err(_) => forall|i: int| 0 <= i < s.columns.len() ==> (#[trigger] s.columns[i]).name != name,
        },
{
    let p = alter::column_unlike(name);
    assert(p =~= (|c: ColumnModel| c.name != name));
    let rest = s.columns.filter(p);
    assert forall|i: int| 0 <= i < rest.len() implies (#[trigger] rest[i]).name != name by {
        s.columns.lemma_filter_pred(p, i);
    }
    if rest.len() == s.columns.len() {
        all_pass(s.columns, p);
    }
}

proof fn all_pass(list: Seq<ColumnModel>, p: spec_fn(ColumnModel) -> bool)
    requires
        list.filter(p).len() == list.len(),
    ensures
        forall|i: int| 0 <= i < list.len() ==> p(#[trigger] list[i]),
    decreases list.len(),
{
    reveal(Seq::filter);
    if list.len() > 0 {
        let front = list.drop_last();
        front.lemma_filter_len(p);
        assert(p(list.last()));
        all_pass(front, p);
        assert forall|i: int| 0 <= i < list.len() implies p(#[trigger] list[i]) by {
            if i < list.len() - 1 {
                assert(front[i] == list[i]);
            }
        }
    }
}

/// A renamed column keeps its place and its form, and keys and indexes speak of it by its new
/// name. Every other column is as it was.
pub proof fn a_renamed_column_keeps_its_place(
    s: SchemaModel,
    old_name: Seq<char>,
    new_name: Seq<char>,
)
    ensures
        match alter::altered(s, OperationModel::RenameColumn(old_name, new_name)) {
            Ok((next, _)) => {
                &&& next.columns.len() == s.columns.len()
                &&& exists|i: int|
                    0 <= i < s.columns.len() && s.columns[i].name == old_name && (
                    #[trigger] next.columns[i]) == (ColumnModel { name: new_name, ..s.columns[i] })
                        && forall|j: int|
                        0 <= j < s.columns.len() && j != i ==> #[trigger] next.columns[j]
                            == s.columns[j]
                &&& next.indexes.len() == s.indexes.len()
                &&& forall|k: int, j: int|
                    #![trigger next.indexes[k].columns[j]]
                    0 <= k < s.indexes.len() && 0 <= j < s.indexes[k].columns.len()
                        ==> next.indexes[k].columns[j] == if s.indexes[k].columns[j] == old_name {
                        new_name
                    } else {
                        s.indexes[k].columns[j]
                    }
                &&& s.primary_key matches Some(names) ==> (next.primary_key matches Some(after)
                    && after.len() == names.len() && forall|j: int|
                    0 <= j < names.len() ==> (#[trigger] after[j]) == if names[j] == old_name {
                        new_name
                    } else {
                        names[j]
                    })
            },
            Err(_) => true,
        },
{
    column_place(s.columns, old_name);
    match alter::altered(s, OperationModel::RenameColumn(old_name, new_name)) {
        Ok((next, _)) => {
            let i = schema::column_at(s.columns, old_name, 0)->0;
            assert(next.columns[i] == (ColumnModel { name: new_name, ..s.columns[i] }));
        },
        Err(_) => {},
    }
}

/// A modified column takes the form that was given, at its place; every other column is as it
/// was. A new default is that of the one column.
pub proof fn a_modified_column_takes_its_form(
    s: SchemaModel,
    c: ColumnModel,
    name: Seq<char>,
    default: Option<Seq<char>>,
)
    ensures
        match alter::altered(s, OperationModel::ModifyColumn(c)) {
            Ok((next, _)) => next.columns.len() == s.columns.len() && exists|i: int|
                0 <= i < s.columns.len() && s.columns[i].name == c.name && (
                #[trigger] next.columns[i]) == c && forall|j: int|
                    0 <= j < s.columns.len() && j != i ==> #[trigger] next.columns[j] == s.columns[j],
            Err(_) => forall|i: int|
                0 <= i < s.columns.len() ==> (#[trigger] s.columns[i]).name != c.name,
        },
        match alter::altered(s, OperationModel::SetColumnDefault(name, default)) {
            Ok((next, _)) => next.columns.len() == s.columns.len() && exists|i: int|
                0 <= i < s.columns.len() && s.columns[i].name == name && (
                #[trigger] next.columns[i]) == (ColumnModel { default: default, ..s.columns[i] })
                    && forall|j: int|
                    0 <= j < s.columns.len() && j != i ==> #[trigger] next.columns[j] == s.columns[j],
            Err(_) => forall|i: int|
                0 <= i < s.columns.len() ==> (#[trigger] s.columns[i]).name != name,
        },
{
    column_place(s.columns, c.name);
    column_place(s.columns, name);
    match alter::altered(s, OperationModel::ModifyColumn(c)) {
        Ok((next, _)) => {
            let i = schema::column_at(s.columns, c.name, 0)->0;
            assert(next.columns[i] == c);
        },
        Err(_) => {},
    }
    match alter::altered(s, OperationModel::SetColumnDefault(name, default)) {
        Ok((next, _)) => {
            let i = schema::column_at(s.columns, name, 0)->0;
            assert(next.columns[i].default == default);
        },
        Err(_) => {},
    }
}

/// A primary key that is added is the schema's; one that is dropped is gone. Indexes, constraints
/// and triggers that are added stand behind the others.
pub proof fn keys_are_added_and_dropped(
    s: SchemaModel,
    names: Seq<Seq<char>>,
    index: schema::IndexModel,
    trigger: schema::TriggerModel,
    gone: Seq<char>,
)
    ensures
        match alter::altered(s, OperationModel::AddPrimaryKey(names)) {
            Ok((next, _)) => next.primary_key == Some(names) && next.columns.len() == s.columns.len()
                && names.len() > 0,
            Err(_) => true,
        },
        match alter::altered(s, OperationModel::DropPrimaryKey) {
            Ok((next, _)) => next.primary_key is None && forall|i: int|
                0 <= i < next.columns.len() ==> !(#[trigger] next.columns[i]).is_primary_key,
            Err(_) => true,
        },
        match alter::altered(s, OperationModel::AddIndex(index)) {
            Ok((next, _)) => next.indexes == s.indexes.push(index) && next.columns == s.columns,
            Err(_) => true,
        },
        match alter::altered(s, OperationModel::DropIndex(gone)) {
            Ok((next, _)) => next.columns == s.columns && forall|i: int|
                0 <= i < next.indexes.len() ==> (#[trigger] next.indexes[i]).name != gone,
            Err(_) => true,
        },
        match alter::altered(s, OperationModel::AddTrigger(trigger)) {
            Ok((next, _)) => next.triggers == s.triggers.push(trigger) && next.columns == s.columns,
            Err(_) => true,
        },
        match alter::altered(s, OperationModel::DropTrigger(gone)) {
            Ok((next, _)) => next.columns == s.columns && forall|i: int|
                0 <= i < next.triggers.len() ==> !text::same_fold(
                    (#[trigger] next.triggers[i]).name,
                    gone,
                ),
            Err(_) => true,
        },
{
    match alter::altered(s, OperationModel::DropIndex(gone)) {
        Ok((next, _)) => {
            assert forall|i: int| 0 <= i < next.indexes.len() implies (
            #[trigger] next.indexes[i]).name != gone by {
                s.indexes.lemma_filter_pred(alter::index_unlike(gone), i);
            }
        },
        Err(_) => {},
    }
    match alter::altered(s, OperationModel::DropTrigger(gone)) {
        Ok((next, _)) => {
            assert forall|i: int| 0 <= i < next.triggers.len() implies !text::same_fold(
                (#[trigger] next.triggers[i]).name,
                gone,
            ) by {
                s.triggers.lemma_filter_pred(alter::trigger_unlike(gone), i);
            }
        },
        Err(_) => {},
    }
}

/// IF EXISTS does nothing where the operation's target is missing, and IF NOT EXISTS where it is
/// there; otherwise they do what the operation does.
pub proof fn conditions_decide(s: SchemaModel, name: Seq<char>, c: ColumnModel)
    ensures
        ({
            let there = exists|i: int|
                0 <= i < s.columns.len() && (#[trigger] s.columns[i]).name == name;
            let op = OperationModel::DropColumn(name);
            alter::altered(s, OperationModel::IfExists(Box::new(op))) == if there {
                alter::altered(s, op)
            } else {
                Ok((s, None))
            }
        }),
        ({
            let there = exists|i: int|
                0 <= i < s.columns.len() && (#[trigger] s.columns[i]).name == c.name;
            let op = OperationModel::AddColumn(c);
            alter::altered(s, OperationModel::IfNotExists(Box::new(op))) == if there {
                Ok((s, None))
            } else {
                alter::altered(s, op)
            }
        }),
{
    column_place(s.columns, name);
    column_place(s.columns, c.name);
    if schema::column_at(s.columns, name, 0) is Some {
        assert(s.columns[schema::column_at(s.columns, name, 0)->0].name == name);
    }
    if schema::column_at(s.columns, c.name, 0) is Some {
        assert(s.columns[schema::column_at(s.columns, c.name, 0)->0].name == c.name);
    }
}

} // verus!
