//! ALTER TABLE seen from the data: whether an operation has been applied, what it does to rows,
//! and what it depends on.
use crate::alter;
use crate::alter::{AlterTableOperation, ColumnPosition, OperationModel, PositionModel};
use crate::checks;
use crate::error;
use crate::error::{DbError, DbResult};
use crate::fkeys;
use crate::row::{Row, RowModel};
use crate::schema;
use crate::schema::{Column, ColumnModel, Index, IndexModel, SchemaModel, TableSchema};
use crate::search;
use crate::text;
use crate::values;
use vstd::prelude::*;

verus! {

// ---------------------------------------------------------------------------------------------
// Whether an operation has been applied
// ---------------------------------------------------------------------------------------------
/// Whether the column of that name is exactly the given one, at the given place.
pub open spec fn matches_at(
    columns: Seq<ColumnModel>,
    c: ColumnModel,
    position: Option<PositionModel>,
) -> bool {
    match schema::column_at(columns, c.name, 0) {
        None => false,
        Some(i) => columns[i] == c && (match position {
            None => true,
            Some(PositionModel::First) => i == 0,
            Some(PositionModel::After(reference)) => i > 0 && columns[i - 1].name == reference,
        }),
    }
}

pub fn column_matches_at(columns: &Vec<Column>, c: &Column, position: Option<&ColumnPosition>) -> (r:
    bool)
    ensures
        r == matches_at(columns.deep_view(), c@, position.deep_view()),
{
    match schema::find_column(columns, c.name.as_str()) {
        None => false,
        Some(i) => {
            if !schema::same_column(&columns[i], c) {
                return false;
            }
            match position {
                None => true,
                Some(p) => match p {
                    ColumnPosition::First => i == 0,
                    ColumnPosition::After(reference) => i > 0 && text::text_equal(
                        columns[i - 1].name.as_str(),
                        reference.as_str(),
                    ),
                },
            }
        },
    }
}

pub open spec fn any_key_named(keys: Seq<fkeys::ForeignKeyModel>, name: Seq<char>) -> bool {
    exists|i: int| 0 <= i < keys.len() && (#[trigger] keys[i]).name == name
}

pub fn key_named(keys: &Vec<fkeys::ForeignKeySpec>, name: &str) -> (r: bool)
    ensures
        r == any_key_named(keys.deep_view(), name@),
{
    let mut i: usize = 0;
    while i < keys.len()
        invariant
            i <= keys@.len(),
            forall|j: int| 0 <= j < i ==> (#[trigger] keys.deep_view()[j]).name != name@,
        decreases keys@.len() - i,
    {
        if text::text_equal(keys[i].name.as_str(), name) {
            assert(keys.deep_view()[i as int].name == name@);
            return true;
        }
        i += 1;
    }
    false
}

pub open spec fn any_check_named(list: Seq<(Seq<char>, Seq<char>)>, name: Seq<char>) -> bool {
    exists|i: int| 0 <= i < list.len() && (#[trigger] list[i]).0 == name
}

pub fn check_named(list: &Vec<(String, String)>, name: &str) -> (r: bool)
    ensures
        r == any_check_named(list.deep_view(), name@),
{
    let mut i: usize = 0;
    while i < list.len()
        invariant
            i <= list@.len(),
            forall|j: int| 0 <= j < i ==> (#[trigger] list.deep_view()[j]).0 != name@,
        decreases list@.len() - i,
    {
        assert(list.deep_view()[i as int].0 == list@[i as int].0@);
        if text::text_equal(list[i].0.as_str(), name) {
            return true;
        }
        i += 1;
    }
    false
}

/// Whether a schema is what an operation would make of it.
pub open spec fn applied(s: SchemaModel, op: OperationModel) -> bool
    decreases op,
{
    match op {
        OperationModel::IfExists(o) => applied(s, *o),
        OperationModel::IfNotExists(o) => applied(s, *o),
        OperationModel::AddColumn(c) => matches_at(s.columns, c, None),
        OperationModel::ModifyColumn(c) => matches_at(s.columns, c, None),
        OperationModel::AddColumnAt(c, p) => matches_at(s.columns, c, Some(p)),
        OperationModel::ModifyColumnAt(c, p) => matches_at(s.columns, c, Some(p)),
        OperationModel::ChangeColumn(old_name, c, p) => (old_name == c.name || !schema::has_column(
            s.columns,
            old_name,
        )) && matches_at(s.columns, c, p),
        OperationModel::RenameColumn(old_name, new_name) => if old_name == new_name {
            schema::has_column(s.columns, old_name)
        } else {
            !schema::has_column(s.columns, old_name) && schema::has_column(s.columns, new_name)
        },
        OperationModel::AddPrimaryKey(names) => schema::primary_key(s) == names,
        OperationModel::DropPrimaryKey => schema::primary_key(s).len() == 0,
        OperationModel::DropColumn(c) => !schema::has_column(s.columns, c),
        OperationModel::AddIndex(i) => match alter::index_at(s.indexes, i.name, 0) {
            Some(k) => s.indexes[k] == i,
            None => false,
        },
        OperationModel::DropIndex(i) => !alter::has_index(s.indexes, i),
        OperationModel::RenameIndex(old_name, new_name) => if old_name == new_name {
            alter::has_index(s.indexes, old_name)
        } else {
            !alter::has_index(s.indexes, old_name) && alter::has_index(s.indexes, new_name)
        },
        OperationModel::AddForeignKey(name, _) => any_key_named(
            fkeys::foreign_keys(s.name, s),
            name,
        ),
        OperationModel::DropForeignKey(name) => !any_key_named(
            fkeys::foreign_keys(s.name, s),
            name,
        ),
        OperationModel::AddCheck(name, _) => any_check_named(checks::checks(s), name),
        OperationModel::DropCheck(name) => !any_check_named(checks::checks(s), name),
        OperationModel::SetColumnDefault(c, default) => match schema::column_at(s.columns, c, 0) {
            Some(i) => s.columns[i].default == default,
            None => false,
        },
        OperationModel::AddTrigger(t) => alter::has_trigger(s.triggers, t.name),
        OperationModel::DropTrigger(name) => !alter::has_trigger(s.triggers, name),
    }
}

pub fn same_names(a: &Vec<String>, b: &Vec<String>) -> (r: bool)
    ensures
        r == (a.deep_view() == b.deep_view()),
{
    if a.len() != b.len() {
        assert(a.deep_view().len() != b.deep_view().len());
        return false;
    }
    let mut i: usize = 0;
    while i < a.len()
        invariant
            i <= a@.len() == b@.len(),
            forall|j: int| 0 <= j < i ==> a.deep_view()[j] == b.deep_view()[j],
        decreases a@.len() - i,
    {
        assert(a.deep_view()[i as int] == a@[i as int]@);
        assert(b.deep_view()[i as int] == b@[i as int]@);
        if !text::text_equal(a[i].as_str(), b[i].as_str()) {
            return false;
        }
        i += 1;
    }
    assert(a.deep_view() =~= b.deep_view());
    true
}

fn same_index(a: &Index, b: &Index) -> (r: bool)
    ensures
        r == (a@ == b@),
{
    text::text_equal(a.name.as_str(), b.name.as_str()) && same_names(&a.columns, &b.columns)
        && a.unique == b.unique
}

pub fn alter_operation_applied(s: &TableSchema, op: &AlterTableOperation) -> (r: bool)
    ensures
        r == applied(s@, op@),
    decreases op,
{
    match op {
        AlterTableOperation::IfExists(o) => alter_operation_applied(s, &**o),
        AlterTableOperation::IfNotExists(o) => alter_operation_applied(s, &**o),
        AlterTableOperation::AddColumn(c) => column_matches_at(&s.columns, c, None),
        AlterTableOperation::ModifyColumn(c) => column_matches_at(&s.columns, c, None),
        AlterTableOperation::AddColumnAt { column, position } => column_matches_at(
            &s.columns,
            column,
            Some(position),
        ),
        AlterTableOperation::ModifyColumnAt { column, position } => column_matches_at(
            &s.columns,
            column,
            Some(position),
        ),
        AlterTableOperation::ChangeColumn { old_name, column, position } => {
            let gone = text::text_equal(old_name.as_str(), column.name.as_str())
                || schema::find_column(&s.columns, old_name.as_str()).is_none();
            let place = match position {
                Some(p) => Some(p),
                None => None,
            };
            gone && column_matches_at(&s.columns, column, place)
        },
        AlterTableOperation::RenameColumn { old_name, new_name } => {
            if text::text_equal(old_name.as_str(), new_name.as_str()) {
                schema::find_column(&s.columns, old_name.as_str()).is_some()
            } else {
                schema::find_column(&s.columns, old_name.as_str()).is_none() && schema::find_column(
                    &s.columns,
                    new_name.as_str(),
                ).is_some()
            }
        },
        AlterTableOperation::AddPrimaryKey(names) => {
            let current = schema::primary_key_columns(s);
            same_names(&current, names)
        },
        AlterTableOperation::DropPrimaryKey => {
            let current = schema::primary_key_columns(s);
            assert(current.deep_view().len() == current@.len());
            current.len() == 0
        },
        AlterTableOperation::DropColumn(c) => schema::find_column(
            &s.columns,
            c.as_str(),
        ).is_none(),
        AlterTableOperation::AddIndex(i) => match alter::find_index(&s.indexes, i.name.as_str()) {
            Some(k) => same_index(&s.indexes[k], i),
            None => false,
        },
        AlterTableOperation::DropIndex(i) => alter::find_index(&s.indexes, i.as_str()).is_none(),
        AlterTableOperation::RenameIndex { old_name, new_name } => {
            if text::text_equal(old_name.as_str(), new_name.as_str()) {
                alter::find_index(&s.indexes, old_name.as_str()).is_some()
            } else {
                alter::find_index(&s.indexes, old_name.as_str()).is_none() && alter::find_index(
                    &s.indexes,
                    new_name.as_str(),
                ).is_some()
            }
        },
        AlterTableOperation::AddForeignKey { name, definition: _ } => {
            let keys = fkeys::table_foreign_keys(s.name.as_str(), s);
            key_named(&keys, name.as_str())
        },
        AlterTableOperation::DropForeignKey(name) => {
            let keys = fkeys::table_foreign_keys(s.name.as_str(), s);
            !key_named(&keys, name.as_str())
        },
        AlterTableOperation::AddCheck { name, definition: _ } => {
            let list = checks::table_check_constraints(s);
            check_named(&list, name.as_str())
        },
        AlterTableOperation::DropCheck(name) => {
            let list = checks::table_check_constraints(s);
            !check_named(&list, name.as_str())
        },
        AlterTableOperation::SetColumnDefault { column, default } => match schema::find_column(
            &s.columns,
            column.as_str(),
        ) {
            Some(i) => schema::same_option(&s.columns[i].default, default),
            None => false,
        },
        AlterTableOperation::AddTrigger(t) => alter::trigger_exists(&s.triggers, t.name.as_str()),
        AlterTableOperation::DropTrigger(name) => !alter::trigger_exists(
            &s.triggers,
            name.as_str(),
        ),
    }
}

// ---------------------------------------------------------------------------------------------
// Law: what was altered counts as applied
// ---------------------------------------------------------------------------------------------
pub proof fn column_at_found(columns: Seq<ColumnModel>, name: Seq<char>, from: int)
    requires
        0 <= from,
    ensures
        schema::column_at(columns, name, from) matches Some(i) ==> from <= i < columns.len()
            && columns[i].name == name && forall|j: int|
            from <= j < i ==> (#[trigger] columns[j]).name != name,
        schema::column_at(columns, name, from) is None ==> forall|i: int|
            from <= i < columns.len() ==> (#[trigger] columns[i]).name != name,
    decreases columns.len() - from,
{
    if from < columns.len() && columns[from].name != name {
        column_at_found(columns, name, from + 1);
    }
}

proof fn column_at_is(columns: Seq<ColumnModel>, name: Seq<char>, from: int, i: int)
    requires
        0 <= from <= i < columns.len(),
        columns[i].name == name,
        forall|j: int| from <= j < i ==> (#[trigger] columns[j]).name != name,
    ensures
        schema::column_at(columns, name, from) == Some(i),
    decreases i - from,
{
    if from < i {
        column_at_is(columns, name, from + 1, i);
    }
}

pub proof fn index_at_found(indexes: Seq<IndexModel>, name: Seq<char>, from: int)
    requires
        0 <= from,
    ensures
        alter::index_at(indexes, name, from) matches Some(i) ==> from <= i < indexes.len()
            && indexes[i].name == name,
        alter::index_at(indexes, name, from) is None ==> forall|i: int|
            from <= i < indexes.len() ==> (#[trigger] indexes[i]).name != name,
    decreases indexes.len() - from,
{
    if from < indexes.len() && indexes[from].name != name {
        index_at_found(indexes, name, from + 1);
    }
}

proof fn index_at_is(indexes: Seq<IndexModel>, name: Seq<char>, from: int, i: int)
    requires
        0 <= from <= i < indexes.len(),
        indexes[i].name == name,
        forall|j: int| from <= j < i ==> (#[trigger] indexes[j]).name != name,
    ensures
        alter::index_at(indexes, name, from) == Some(i),
    decreases i - from,
{
    if from < i {
        index_at_is(indexes, name, from + 1, i);
    }
}

/// The operations whose effect stands in the columns, keys, indexes and triggers themselves.
pub open spec fn structural(op: OperationModel) -> bool {
    match op {
        OperationModel::AddColumn(_) => true,
        OperationModel::AddColumnAt(_, _) => true,
        OperationModel::DropColumn(_) => true,
        OperationModel::ModifyColumn(_) => true,
        OperationModel::ModifyColumnAt(_, _) => true,
        OperationModel::ChangeColumn(_, _, _) => true,
        OperationModel::RenameColumn(_, _) => true,
        OperationModel::RenameIndex(_, _) => true,
        OperationModel::AddPrimaryKey(_) => true,
        OperationModel::DropPrimaryKey => true,
        OperationModel::AddIndex(_) => true,
        OperationModel::DropIndex(_) => true,
        OperationModel::SetColumnDefault(_, _) => true,
        OperationModel::AddTrigger(_) => true,
        OperationModel::DropTrigger(_) => true,
        _ => false,
    }
}

/// The operations that move or rename what they find by name.
pub open spec fn moves_names(op: OperationModel) -> bool {
    op is ModifyColumnAt || op is ChangeColumn || op is RenameColumn || op is RenameIndex
}

/// Whether no two columns and no two indexes of a schema have one name.
pub open spec fn names_differ(s: SchemaModel) -> bool {
    &&& forall|i: int, j: int|
        0 <= i < j < s.columns.len() ==> (#[trigger] s.columns[i]).name != (
        #[trigger] s.columns[j]).name
    &&& forall|i: int, j: int|
        0 <= i < j < s.indexes.len() ==> (#[trigger] s.indexes[i]).name != (
        #[trigger] s.indexes[j]).name
}

/// A column that was taken out and put in again stands where it was put, under its new name alone.
proof fn column_moved(columns: Seq<ColumnModel>, i: int, j: int, c: ColumnModel)
    requires
        0 <= i < columns.len(),
        0 <= j < columns.len(),
        forall|a: int, b: int|
            0 <= a < b < columns.len() ==> (#[trigger] columns[a]).name != (
            #[trigger] columns[b]).name,
        forall|a: int| 0 <= a < columns.len() && a != i ==> (#[trigger] columns[a]).name != c.name,
    ensures
        ({
            let after = columns.remove(i).insert(j, c);
            &&& schema::column_at(after, c.name, 0) == Some(j)
            &&& after[j] == c
            &&& columns[i].name != c.name ==> schema::column_at(after, columns[i].name, 0) is None
        }),
{
    let rest = columns.remove(i);
    let after = rest.insert(j, c);
    assert forall|a: int| 0 <= a < after.len() && a != j implies (#[trigger] after[a]).name
        != c.name && after[a].name != columns[i].name by {
        let b = if a < j {
            a
        } else {
            a - 1
        };
        assert(after[a] == rest[b]);
        let d = if b < i {
            b
        } else {
            b + 1
        };
        assert(rest[b] == columns[d]);
    }
    column_at_is(after, c.name, 0, j);
    column_at_found(after, columns[i].name, 0);
}

/// A schema that an operation on columns, keys, indexes or triggers was applied to is recognized
/// as such, so that replaying the operation leaves it alone. Where the operation moves or renames
/// something, the names must differ for that: of two columns with one name, the other would stay.
pub proof fn altered_is_applied(s: SchemaModel, op: OperationModel)
    requires
        structural(op),
        moves_names(op) ==> names_differ(s),
        alter::altered(s, op) is Ok,
    ensures
        applied(alter::altered(s, op)->Ok_0.0, op),
{
    let after = alter::altered(s, op)->Ok_0.0;
    match op {
        OperationModel::AddColumn(c) => {
            column_at_found(s.columns, c.name, 0);
            column_at_is(after.columns, c.name, 0, s.columns.len() as int);
        },
        OperationModel::AddColumnAt(c, p) => {
            column_at_found(s.columns, c.name, 0);
            let i = alter::place(s.columns, p)->Ok_0;
            match p {
                PositionModel::First => {},
                PositionModel::After(reference) => {
                    column_at_found(s.columns, reference, 0);
                },
            }
            assert(after.columns == s.columns.insert(i, c));
            assert forall|j: int| 0 <= j < i implies (#[trigger] after.columns[j]).name != c.name by {
                assert(after.columns[j] == s.columns[j]);
            }
            column_at_is(after.columns, c.name, 0, i);
        },
        OperationModel::DropColumn(name) => {
            column_at_found(after.columns, name, 0);
            if schema::column_at(after.columns, name, 0) is Some {
                let i = schema::column_at(after.columns, name, 0)->0;
                s.columns.lemma_filter_pred(alter::column_unlike(name), i);
            }
        },
        OperationModel::ModifyColumn(c) => {
            column_at_found(s.columns, c.name, 0);
            let i = schema::column_at(s.columns, c.name, 0)->0;
            assert forall|j: int| 0 <= j < i implies (#[trigger] after.columns[j]).name != c.name by {
                assert(after.columns[j] == s.columns[j]);
            }
            column_at_is(after.columns, c.name, 0, i);
        },
        OperationModel::ModifyColumnAt(c, p) => {
            column_at_found(s.columns, c.name, 0);
            let i = schema::column_at(s.columns, c.name, 0)->0;
            let rest = s.columns.remove(i);
            let j = alter::place(rest, p)->Ok_0;
            if let PositionModel::After(reference) = p {
                column_at_found(rest, reference, 0);
                assert(rest.insert(j, c)[j - 1] == rest[j - 1]);
            }
            column_moved(s.columns, i, j, c);
        },
        OperationModel::ChangeColumn(old_name, c, p) => {
            column_at_found(s.columns, old_name, 0);
            column_at_found(s.columns, c.name, 0);
            let i = schema::column_at(s.columns, old_name, 0)->0;
            let rest = s.columns.remove(i);
            let j = match p {
                Some(position) => alter::place(rest, position)->Ok_0,
                None => i,
            };
            if let Some(PositionModel::After(reference)) = p {
                column_at_found(rest, reference, 0);
                assert(rest.insert(j, c)[j - 1] == rest[j - 1]);
            }
            column_moved(s.columns, i, j, c);
        },
        OperationModel::RenameColumn(old_name, new_name) => {
            column_at_found(s.columns, old_name, 0);
            column_at_found(s.columns, new_name, 0);
            let i = schema::column_at(s.columns, old_name, 0)->0;
            let c = ColumnModel { name: new_name, ..s.columns[i] };
            assert(s.columns.remove(i).insert(i, c) =~= s.columns.update(i, c));
            column_moved(s.columns, i, i, c);
        },
        OperationModel::RenameIndex(old_name, new_name) => {
            index_at_found(s.indexes, old_name, 0);
            index_at_found(s.indexes, new_name, 0);
            index_at_found(after.indexes, old_name, 0);
            index_at_found(after.indexes, new_name, 0);
            let i = alter::index_at(s.indexes, old_name, 0)->0;
            assert(after.indexes[i].name == new_name);
            assert forall|j: int| 0 <= j < s.indexes.len() && j != i implies (
            #[trigger] after.indexes[j]) == s.indexes[j] by {}
        },
        OperationModel::DropPrimaryKey => {
            no_marked(after.columns);
        },
        OperationModel::AddIndex(i) => {
            index_at_found(s.indexes, i.name, 0);
            index_at_is(after.indexes, i.name, 0, s.indexes.len() as int);
        },
        OperationModel::DropIndex(name) => {
            index_at_found(after.indexes, name, 0);
            if alter::index_at(after.indexes, name, 0) is Some {
                let i = alter::index_at(after.indexes, name, 0)->0;
                s.indexes.lemma_filter_pred(alter::index_unlike(name), i);
            }
        },
        OperationModel::SetColumnDefault(name, default) => {
            column_at_found(s.columns, name, 0);
            let i = schema::column_at(s.columns, name, 0)->0;
            assert forall|j: int| 0 <= j < i implies (#[trigger] after.columns[j]).name != name by {
                assert(after.columns[j] == s.columns[j]);
            }
            column_at_is(after.columns, name, 0, i);
        },
        OperationModel::AddTrigger(t) => {
            assert(after.triggers[s.triggers.len() as int].name == t.name);
        },
        OperationModel::DropTrigger(name) => {
            if alter::has_trigger(after.triggers, name) {
                let i = choose|i: int|
                    0 <= i < after.triggers.len() && text::same_fold(
                        (#[trigger] after.triggers[i]).name,
                        name,
                    );
                s.triggers.lemma_filter_pred(alter::trigger_unlike(name), i);
            }
        },
        _ => {},
    }
}

proof fn no_marked(columns: Seq<ColumnModel>)
    requires
        forall|i: int| 0 <= i < columns.len() ==> !(#[trigger] columns[i]).is_primary_key,
    ensures
        schema::marked_names(columns).len() == 0,
    decreases columns.len(),
{
    if columns.len() > 0 {
        no_marked(columns.drop_last());
    }
}

// ---------------------------------------------------------------------------------------------
// Rows
// ---------------------------------------------------------------------------------------------
/// What an operation does to the rows of a table.
pub enum AlterRowMutation {
    Rename { old_name: String, new_name: String },
    Drop(String),
    Materialize,
}

pub enum MutationModel {
    Rename(Seq<char>, Seq<char>),
    Drop(Seq<char>),
    Materialize,
}

impl View for AlterRowMutation {
    type V = MutationModel;

    open spec fn view(&self) -> MutationModel {
        match self {
            AlterRowMutation::Rename { old_name, new_name } => MutationModel::Rename(
                old_name@,
                new_name@,
            ),
            AlterRowMutation::Drop(c) => MutationModel::Drop(c@),
            AlterRowMutation::Materialize => MutationModel::Materialize,
        }
    }
}

impl DeepView for AlterRowMutation {
    type V = MutationModel;

    open spec fn deep_view(&self) -> MutationModel {
        self@
    }
}

pub open spec fn mutation_of(op: OperationModel) -> Option<MutationModel>
    decreases op,
{
    match op {
        OperationModel::IfExists(o) => mutation_of(*o),
        OperationModel::IfNotExists(o) => mutation_of(*o),
        OperationModel::ChangeColumn(old_name, c, _) => if old_name != c.name {
            Some(MutationModel::Rename(old_name, c.name))
        } else {
            None
        },
        OperationModel::RenameColumn(old_name, new_name) => if old_name != new_name {
            Some(MutationModel::Rename(old_name, new_name))
        } else {
            None
        },
        OperationModel::DropColumn(c) => Some(MutationModel::Drop(c)),
        OperationModel::AddColumn(_) => Some(MutationModel::Materialize),
        OperationModel::AddColumnAt(_, _) => Some(MutationModel::Materialize),
        _ => None,
    }
}

pub fn alter_row_mutation(op: &AlterTableOperation) -> (r: Option<AlterRowMutation>)
    ensures
        r.deep_view() == mutation_of(op@),
    decreases op,
{
    match op {
        AlterTableOperation::IfExists(o) => alter_row_mutation(&**o),
        AlterTableOperation::IfNotExists(o) => alter_row_mutation(&**o),
        AlterTableOperation::ChangeColumn { old_name, column, position: _ } => {
            if text::text_equal(old_name.as_str(), column.name.as_str()) {
                None
            } else {
                Some(
                    AlterRowMutation::Rename {
                        old_name: old_name.clone(),
                        new_name: column.name.clone(),
                    },
                )
            }
        },
        AlterTableOperation::RenameColumn { old_name, new_name } => {
            if text::text_equal(old_name.as_str(), new_name.as_str()) {
                None
            } else {
                Some(
                    AlterRowMutation::Rename {
                        old_name: old_name.clone(),
                        new_name: new_name.clone(),
                    },
                )
            }
        },
        AlterTableOperation::DropColumn(c) => Some(AlterRowMutation::Drop(c.clone())),
        AlterTableOperation::AddColumn(_) => Some(AlterRowMutation::Materialize),
        AlterTableOperation::AddColumnAt { column: _, position: _ } => Some(
            AlterRowMutation::Materialize,
        ),
        _ => None,
    }
}

pub open spec fn mutated(r: RowModel, m: MutationModel) -> RowModel {
    match m {
        MutationModel::Rename(old_name, new_name) => r.renamed(old_name, new_name),
        MutationModel::Drop(c) => r.without(c),
        MutationModel::Materialize => r,
    }
}

pub open spec fn all_mutated(rows: Seq<RowModel>, m: MutationModel) -> Seq<RowModel> {
    rows.map_values(|r: RowModel| mutated(r, m))
}

pub fn apply_alter_row_mutation(rows: &Vec<Row>, m: &AlterRowMutation) -> (out: Vec<Row>)
    ensures
        out.deep_view() == all_mutated(rows.deep_view(), m@),
{
    let mut out: Vec<Row> = Vec::new();
    let mut i: usize = 0;
    while i < rows.len()
        invariant
            i <= rows@.len(),
            out@.len() == i,
            forall|j: int| 0 <= j < i ==> (#[trigger] out@[j])@ == mutated(rows@[j]@, m@),
        decreases rows@.len() - i,
    {
        let mut r = rows[i].clone();
        match m {
            AlterRowMutation::Rename { old_name, new_name } => {
                r.rename_column(old_name.as_str(), new_name.as_str());
            },
            AlterRowMutation::Drop(c) => {
                r.remove_column(c.as_str());
            },
            AlterRowMutation::Materialize => {},
        }
        out.push(r);
        i += 1;
    }
    assert(out.deep_view() =~= all_mutated(rows.deep_view(), m@));
    out
}

/// The key that an operation adds: its name, its columns, and whether NULL is allowed.
pub open spec fn new_key(op: OperationModel) -> Option<(Seq<char>, Seq<Seq<char>>, bool)>
    decreases op,
{
    match op {
        OperationModel::IfExists(o) => new_key(*o),
        OperationModel::IfNotExists(o) => new_key(*o),
        OperationModel::AddPrimaryKey(names) => Some(("PRIMARY"@, names, false)),
        OperationModel::AddIndex(i) => if i.unique {
            Some((i.name, i.columns, true))
        } else {
            None
        },
        _ => None,
    }
}

pub fn new_key_constraint(op: &AlterTableOperation) -> (r: Option<(String, Vec<String>, bool)>)
    ensures
        r.deep_view() == new_key(op@),
    decreases op,
{
    match op {
        AlterTableOperation::IfExists(o) => new_key_constraint(&**o),
        AlterTableOperation::IfNotExists(o) => new_key_constraint(&**o),
        AlterTableOperation::AddPrimaryKey(names) => Some(
            (text::copy_text("PRIMARY"), crate::row::copy_names(names), false),
        ),
        AlterTableOperation::AddIndex(i) => {
            if i.unique {
                Some((i.name.clone(), crate::row::copy_names(&i.columns), true))
            } else {
                None
            }
        },
        _ => None,
    }
}

/// The first key column that a row lacks or has NULL in.
pub open spec fn lacking_from(r: RowModel, columns: Seq<Seq<char>>, at: int) -> Option<Seq<char>>
    decreases columns.len() - at,
{
    if at < 0 || at >= columns.len() {
        None
    } else if r.present(columns[at]) is None {
        Some(columns[at])
    } else {
        lacking_from(r, columns, at + 1)
    }
}

fn lacking_column(r: &Row, columns: &Vec<String>) -> (res: Option<usize>)
    ensures
        res is Some == lacking_from(r@, columns.deep_view(), 0) is Some,
        res matches Some(i) ==> i < columns@.len() && lacking_from(r@, columns.deep_view(), 0)
            == Some(columns@[i as int]@),
{
    let mut i: usize = 0;
    while i < columns.len()
        invariant
            i <= columns@.len(),
            lacking_from(r@, columns.deep_view(), i as int) == lacking_from(
                r@,
                columns.deep_view(),
                0,
            ),
        decreases columns@.len() - i,
    {
        assert(columns.deep_view()[i as int] == columns@[i as int]@);
        if r.is_null(columns[i].as_str()) || r.get(columns[i].as_str()).is_none() {
            return Some(i);
        }
        i += 1;
    }
    None
}

/// Whether the rows from the `at`-th on fit a new key, given the keys of the rows before.
pub open spec fn fits_from(
    rows: Seq<RowModel>,
    columns: Seq<Seq<char>>,
    name: Seq<char>,
    nullable: bool,
    seen: Set<Seq<u8>>,
    at: int,
) -> Result<(), Seq<char>>
    decreases rows.len() - at,
{
    if at < 0 || at >= rows.len() {
        Ok(())
    } else {
        match lacking_from(rows[at], columns, 0) {
            Some(column) => if nullable {
                fits_from(rows, columns, name, nullable, seen, at + 1)
            } else {
                Err("Invalid use of NULL value in column '"@ + column + "'"@)
            },
            None => match values::key(rows[at], columns) {
                None => Err("Unable to encode key '"@ + name + "'"@),
                Some(key) => if seen.contains(key) {
                    Err("Duplicate entry for key '"@ + name + "'"@)
                } else {
                    fits_from(rows, columns, name, nullable, seen.insert(key), at + 1)
                },
            },
        }
    }
}

/// Whether rows fit a new key: no NULL in a key that forbids it, and no key twice.
pub open spec fn fits_key(
    rows: Seq<RowModel>,
    columns: Seq<Seq<char>>,
    name: Seq<char>,
    nullable: bool,
) -> Result<(), Seq<char>> {
    fits_from(rows, columns, name, nullable, Set::empty(), 0)
}

/// A set of byte strings, held as a list.
pub fn bytes_among(list: &Vec<Vec<u8>>, b: &[u8]) -> (r: bool)
    ensures
        r == list.deep_view().to_set().contains(b@),
{
    let mut i: usize = 0;
    while i < list.len()
        invariant
            i <= list@.len(),
            forall|j: int| 0 <= j < i ==> list.deep_view()[j] != b@,
        decreases list@.len() - i,
    {
        proof {
            crate::row::bytes_model(list@[i as int]);
            assert(list.deep_view()[i as int] == list@[i as int]@);
        }
        if text::bytes_equal(list[i].as_slice(), b) {
            return true;
        }
        i += 1;
    }
    false
}

pub fn add_bytes(list: &mut Vec<Vec<u8>>, b: Vec<u8>)
    ensures
        final(list).deep_view().to_set() == old(list).deep_view().to_set().insert(b@),
{
    let ghost before = list.deep_view();
    proof {
        crate::row::bytes_model(b);
        crate::seqs::push_to_set(before, b@);
    }
    list.push(b);
    assert(list.deep_view() =~= before.push(b@));
}

pub fn validate_rows_for_new_key(
    rows: &Vec<Row>,
    columns: &Vec<String>,
    key_name: &str,
    nullable: bool,
) -> (r: DbResult<()>)
    ensures
        error::outcome(r) == fits_key(
            rows.deep_view(),
            columns.deep_view(),
            key_name@,
            nullable,
        ),
{
    let ghost models = rows.deep_view();
    let ghost names = columns.deep_view();
    let mut seen: Vec<Vec<u8>> = Vec::new();
    let mut i: usize = 0;
    assert(seen.deep_view().to_set() =~= Set::empty());
    while i < rows.len()
        invariant
            i <= rows@.len(),
            models == rows.deep_view(),
            names == columns.deep_view(),
            fits_from(
                models,
                names,
                key_name@,
                nullable,
                seen.deep_view().to_set(),
                i as int,
            ) == fits_key(models, names, key_name@, nullable),
        decreases rows@.len() - i,
    {
        assert(models[i as int] == rows@[i as int]@);
        match lacking_column(&rows[i], columns) {
            Some(c) => {
                if !nullable {
                    return Err(
                        DbError::new(
                            error::cat3(
                                "Invalid use of NULL value in column '",
                                columns[c].as_str(),
                                "'",
                            ),
                        ),
                    );
                }
            },
            None => match values::encode_key(&rows[i], columns) {
                None => {
                    return Err(
                        DbError::new(error::cat3("Unable to encode key '", key_name, "'")),
                    );
                },
                Some(key) => {
                    if bytes_among(&seen, key.as_slice()) {
                        return Err(
                            DbError::new(error::cat3("Duplicate entry for key '", key_name, "'")),
                        );
                    }
                    add_bytes(&mut seen, key);
                },
            },
        }
        i += 1;
    }
    Ok(())
}

/// Rows that fit a key have it at most once each.
pub proof fn fitting_rows_differ(
    rows: Seq<RowModel>,
    columns: Seq<Seq<char>>,
    name: Seq<char>,
    nullable: bool,
    a: int,
    b: int,
)
    requires
        fits_key(rows, columns, name, nullable) is Ok,
        0 <= a < b < rows.len(),
    ensures
        values::key(rows[a], columns) is Some ==> values::key(rows[a], columns) != values::key(
            rows[b],
            columns,
        ),
{
    differ_from(rows, columns, name, nullable, Set::empty(), 0, a, b);
}

proof fn key_means_present(r: RowModel, columns: Seq<Seq<char>>, at: int)
    requires
        0 <= at,
    ensures
        values::key_from(r, columns, at) is Some <==> lacking_from(r, columns, at) is None,
    decreases columns.len() - at,
{
    if at < columns.len() {
        key_means_present(r, columns, at + 1);
    }
}

proof fn differ_from(
    rows: Seq<RowModel>,
    columns: Seq<Seq<char>>,
    name: Seq<char>,
    nullable: bool,
    seen: Set<Seq<u8>>,
    at: int,
    a: int,
    b: int,
)
    requires
        fits_from(rows, columns, name, nullable, seen, at) is Ok,
        0 <= at <= b < rows.len(),
        0 <= a < b,
        at > a ==> (values::key(rows[a], columns) matches Some(key) ==> seen.contains(key)),
    ensures
        values::key(rows[a], columns) is Some ==> values::key(rows[a], columns) != values::key(
            rows[b],
            columns,
        ),
    decreases b - at,
{
    key_means_present(rows[at], columns, 0);
    if at < b {
        let next = match lacking_from(rows[at], columns, 0) {
            Some(_) => seen,
            None => seen.insert(values::key(rows[at], columns)->0),
        };
        differ_from(rows, columns, name, nullable, next, at + 1, a, b);
    }
}

// ---------------------------------------------------------------------------------------------
// Dependencies
// ---------------------------------------------------------------------------------------------
/// The column that an operation removes or renames.
pub open spec fn target_column(op: OperationModel) -> Option<Seq<char>>
    decreases op,
{
    match op {
        OperationModel::IfExists(o) => target_column(*o),
        OperationModel::IfNotExists(o) => target_column(*o),
        OperationModel::DropColumn(c) => Some(c),
        OperationModel::ChangeColumn(old_name, c, _) => if old_name != c.name {
            Some(old_name)
        } else {
            None
        },
        OperationModel::RenameColumn(old_name, new_name) => if old_name != new_name {
            Some(old_name)
        } else {
            None
        },
        _ => None,
    }
}

pub fn alter_target_column(op: &AlterTableOperation) -> (r: Option<String>)
    ensures
        r.deep_view() == target_column(op@),
    decreases op,
{
    match op {
        AlterTableOperation::IfExists(o) => alter_target_column(&**o),
        AlterTableOperation::IfNotExists(o) => alter_target_column(&**o),
        AlterTableOperation::DropColumn(c) => Some(c.clone()),
        AlterTableOperation::ChangeColumn { old_name, column, position: _ } => {
            if text::text_equal(old_name.as_str(), column.name.as_str()) {
                None
            } else {
                Some(old_name.clone())
            }
        },
        AlterTableOperation::RenameColumn { old_name, new_name } => {
            if text::text_equal(old_name.as_str(), new_name.as_str()) {
                None
            } else {
                Some(old_name.clone())
            }
        },
        _ => None,
    }
}

pub open spec fn no_identifier_fn() -> spec_fn(char) -> bool {
    |c: char| !text::is_alphanumeric(c) && c != '_'
}

/// Whether an identifier in an expression is a column's name.
pub open spec fn mentions(e: Seq<char>, column: Seq<char>) -> bool {
    let parts = search::split_by(e, no_identifier_fn(), 0, 0);
    exists|i: int| 0 <= i < parts.len() && text::same_fold(#[trigger] parts[i], column)
}

pub open spec fn any_fold(parts: Seq<Seq<char>>, column: Seq<char>) -> bool {
    exists|i: int| 0 <= i < parts.len() && text::same_fold(#[trigger] parts[i], column)
}

proof fn any_fold_cons(head: Seq<char>, rest: Seq<Seq<char>>, column: Seq<char>)
    ensures
        any_fold(seq![head] + rest, column) == (text::same_fold(head, column) || any_fold(
            rest,
            column,
        )),
{
    let all = seq![head] + rest;
    assert(all[0] == head);
    if any_fold(rest, column) {
        let i = choose|i: int| 0 <= i < rest.len() && text::same_fold(#[trigger] rest[i], column);
        assert(all[i + 1] == rest[i]);
    }
    if any_fold(all, column) {
        let i = choose|i: int| 0 <= i < all.len() && text::same_fold(#[trigger] all[i], column);
        if i > 0 {
            assert(rest[i - 1] == all[i]);
        }
    }
}

pub fn expression_mentions_column(e: &str, column: &str) -> (r: bool)
    ensures
        r == mentions(e@, column@),
{
    let c = text::chars_of(e);
    let name = text::chars_of(column);
    let ghost whole = any_fold(search::split_by(e@, no_identifier_fn(), 0, 0), column@);
    let mut from: usize = 0;
    let mut at: usize = 0;
    while at < c.len()
        invariant
            from <= at <= c@.len(),
            c@ == e@,
            name@ == column@,
            whole == mentions(e@, column@),
            whole == any_fold(
                search::split_by(e@, no_identifier_fn(), from as int, at as int),
                column@,
            ),
        decreases c@.len() - at,
    {
        let ch = c[at];
        if !text::char_is_alphanumeric(ch) && ch != '_' {
            proof {
                any_fold_cons(
                    e@.subrange(from as int, at as int),
                    search::split_by(e@, no_identifier_fn(), at + 1, at + 1),
                    column@,
                );
            }
            let part = text::copy_chars(&c, from, at);
            if text::eq_fold_chars(&part, &name) {
                return true;
            }
            from = at + 1;
        }
        at += 1;
    }
    let part = text::copy_chars(&c, from, c.len());
    proof {
        any_fold_cons(e@.subrange(from as int, e@.len() as int), Seq::empty(), column@);
        let last = seq![e@.subrange(from as int, e@.len() as int)];
        assert(last + Seq::<Seq<char>>::empty() =~= last);
    }
    text::eq_fold_chars(&part, &name)
}

} // verus!
