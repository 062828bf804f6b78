//! ALTER TABLE: what each operation makes of a schema.
use crate::assoc;
use crate::checks;
use crate::error;
use crate::error::{DbError, DbResult};
use crate::fkeys;
use crate::row;
use crate::schema;
use crate::schema::{
    Column, ColumnModel, Index, IndexModel, SchemaModel, TableSchema, TriggerDefinition, TriggerModel,
};
use crate::seqs;
use crate::sqltext;
use crate::text;
use vstd::prelude::*;

verus! {

#[derive(Debug, PartialEq, Eq)]
pub enum ColumnPosition {
    First,
    After(String),
}

pub enum PositionModel {
    First,
    After(Seq<char>),
}

impl View for ColumnPosition {
    type V = PositionModel;

    open spec fn view(&self) -> PositionModel {
        match self {
            ColumnPosition::First => PositionModel::First,
            ColumnPosition::After(s) => PositionModel::After(s@),
        }
    }
}

impl DeepView for ColumnPosition {
    type V = PositionModel;

    open spec fn deep_view(&self) -> PositionModel {
        self@
    }
}

impl Clone for ColumnPosition {
    fn clone(&self) -> (r: Self)
        ensures
            r@ == self@,
    {
        match self {
            ColumnPosition::First => ColumnPosition::First,
            ColumnPosition::After(s) => ColumnPosition::After(s.clone()),
        }
    }
}

#[allow(inconsistent_fields)]
#[derive(Debug)]
pub enum AlterTableOperation {
    IfExists(Box<AlterTableOperation>),
    IfNotExists(Box<AlterTableOperation>),
    AddColumn(Column),
    AddColumnAt { column: Column, position: ColumnPosition },
    DropColumn(String),
    ModifyColumn(Column),
    ModifyColumnAt { column: Column, position: ColumnPosition },
    ChangeColumn { old_name: String, column: Column, position: Option<ColumnPosition> },
    RenameColumn { old_name: String, new_name: String },
    AddPrimaryKey(Vec<String>),
    DropPrimaryKey,
    AddIndex(Index),
    DropIndex(String),
    RenameIndex { old_name: String, new_name: String },
    AddForeignKey { name: String, definition: String },
    DropForeignKey(String),
    AddCheck { name: String, definition: String },
    DropCheck(String),
    SetColumnDefault { column: String, default: Option<String> },
    AddTrigger(TriggerDefinition),
    DropTrigger(String),
}

pub enum OperationModel {
    IfExists(Box<OperationModel>),
    IfNotExists(Box<OperationModel>),
    AddColumn(ColumnModel),
    AddColumnAt(ColumnModel, PositionModel),
    DropColumn(Seq<char>),
    ModifyColumn(ColumnModel),
    ModifyColumnAt(ColumnModel, PositionModel),
    ChangeColumn(Seq<char>, ColumnModel, Option<PositionModel>),
    RenameColumn(Seq<char>, Seq<char>),
    AddPrimaryKey(Seq<Seq<char>>),
    DropPrimaryKey,
    AddIndex(IndexModel),
    DropIndex(Seq<char>),
    RenameIndex(Seq<char>, Seq<char>),
    AddForeignKey(Seq<char>, Seq<char>),
    DropForeignKey(Seq<char>),
    AddCheck(Seq<char>, Seq<char>),
    DropCheck(Seq<char>),
    SetColumnDefault(Seq<char>, Option<Seq<char>>),
    AddTrigger(TriggerModel),
    DropTrigger(Seq<char>),
}

/// What an operation says.
pub open spec fn operation_model(op: AlterTableOperation) -> OperationModel
    decreases op,
{
    match op {
        AlterTableOperation::IfExists(o) => OperationModel::IfExists(
            Box::new(operation_model(*o)),
        ),
        AlterTableOperation::IfNotExists(o) => OperationModel::IfNotExists(
            Box::new(operation_model(*o)),
        ),
        AlterTableOperation::AddColumn(c) => OperationModel::AddColumn(c@),
        AlterTableOperation::AddColumnAt { column, position } => OperationModel::AddColumnAt(
            column@,
            position@,
        ),
        AlterTableOperation::DropColumn(c) => OperationModel::DropColumn(c@),
        AlterTableOperation::ModifyColumn(c) => OperationModel::ModifyColumn(c@),
        AlterTableOperation::ModifyColumnAt { column, position } => OperationModel::ModifyColumnAt(
            column@,
            position@,
        ),
        AlterTableOperation::ChangeColumn { old_name, column, position } =>
            OperationModel::ChangeColumn(old_name@, column@, position.deep_view()),
        AlterTableOperation::RenameColumn { old_name, new_name } => OperationModel::RenameColumn(
            old_name@,
            new_name@,
        ),
        AlterTableOperation::AddPrimaryKey(c) => OperationModel::AddPrimaryKey(c.deep_view()),
        AlterTableOperation::DropPrimaryKey => OperationModel::DropPrimaryKey,
        AlterTableOperation::AddIndex(i) => OperationModel::AddIndex(i@),
        AlterTableOperation::DropIndex(i) => OperationModel::DropIndex(i@),
        AlterTableOperation::RenameIndex { old_name, new_name } => OperationModel::RenameIndex(
            old_name@,
            new_name@,
        ),
        AlterTableOperation::AddForeignKey { name, definition } => OperationModel::AddForeignKey(
            name@,
            definition@,
        ),
        AlterTableOperation::DropForeignKey(n) => OperationModel::DropForeignKey(n@),
        AlterTableOperation::AddCheck { name, definition } => OperationModel::AddCheck(
            name@,
            definition@,
        ),
        AlterTableOperation::DropCheck(n) => OperationModel::DropCheck(n@),
        AlterTableOperation::SetColumnDefault { column, default } =>
            OperationModel::SetColumnDefault(column@, default.deep_view()),
        AlterTableOperation::AddTrigger(t) => OperationModel::AddTrigger(t@),
        AlterTableOperation::DropTrigger(n) => OperationModel::DropTrigger(n@),
    }
}

impl View for AlterTableOperation {
    type V = OperationModel;

    open spec fn view(&self) -> OperationModel {
        operation_model(*self)
    }
}

impl DeepView for AlterTableOperation {
    type V = OperationModel;

    open spec fn deep_view(&self) -> OperationModel {
        self@
    }
}

fn copy_position(p: &Option<ColumnPosition>) -> (r: Option<ColumnPosition>)
    ensures
        r.deep_view() == p.deep_view(),
{
    match p {
        Some(x) => Some(x.clone()),
        None => None,
    }
}

impl Clone for AlterTableOperation {
    fn clone(&self) -> (r: Self)
        ensures
            r@ == self@,
        decreases self,
    {
        match self {
            AlterTableOperation::IfExists(o) => {
                let x = (&**o).clone();
                AlterTableOperation::IfExists(Box::new(x))
            },
            AlterTableOperation::IfNotExists(o) => {
                let x = (&**o).clone();
                AlterTableOperation::IfNotExists(Box::new(x))
            },
            AlterTableOperation::AddColumn(c) => AlterTableOperation::AddColumn(c.clone()),
            AlterTableOperation::AddColumnAt { column, position } =>
                AlterTableOperation::AddColumnAt {
                column: column.clone(),
                position: position.clone(),
            },
            AlterTableOperation::DropColumn(c) => AlterTableOperation::DropColumn(c.clone()),
            AlterTableOperation::ModifyColumn(c) => AlterTableOperation::ModifyColumn(c.clone()),
            AlterTableOperation::ModifyColumnAt { column, position } =>
                AlterTableOperation::ModifyColumnAt {
                column: column.clone(),
                position: position.clone(),
            },
            AlterTableOperation::ChangeColumn { old_name, column, position } =>
                AlterTableOperation::ChangeColumn {
                old_name: old_name.clone(),
                column: column.clone(),
                position: copy_position(position),
            },
            AlterTableOperation::RenameColumn { old_name, new_name } =>
                AlterTableOperation::RenameColumn {
                old_name: old_name.clone(),
                new_name: new_name.clone(),
            },
            AlterTableOperation::AddPrimaryKey(c) => AlterTableOperation::AddPrimaryKey(
                row::copy_names(c),
            ),
            AlterTableOperation::DropPrimaryKey => AlterTableOperation::DropPrimaryKey,
            AlterTableOperation::AddIndex(i) => AlterTableOperation::AddIndex(i.clone()),
            AlterTableOperation::DropIndex(i) => AlterTableOperation::DropIndex(i.clone()),
            AlterTableOperation::RenameIndex { old_name, new_name } =>
                AlterTableOperation::RenameIndex {
                old_name: old_name.clone(),
                new_name: new_name.clone(),
            },
            AlterTableOperation::AddForeignKey { name, definition } =>
                AlterTableOperation::AddForeignKey {
                name: name.clone(),
                definition: definition.clone(),
            },
            AlterTableOperation::DropForeignKey(n) => AlterTableOperation::DropForeignKey(
                n.clone(),
            ),
            AlterTableOperation::AddCheck { name, definition } => AlterTableOperation::AddCheck {
                name: name.clone(),
                definition: definition.clone(),
            },
            AlterTableOperation::DropCheck(n) => AlterTableOperation::DropCheck(n.clone()),
            AlterTableOperation::SetColumnDefault { column, default } =>
                AlterTableOperation::SetColumnDefault {
                column: column.clone(),
                default: schema::copy_option(default),
            },
            AlterTableOperation::AddTrigger(t) => AlterTableOperation::AddTrigger(t.clone()),
            AlterTableOperation::DropTrigger(n) => AlterTableOperation::DropTrigger(n.clone()),
        }
    }
}

// ---------------------------------------------------------------------------------------------
// Small pieces
// ---------------------------------------------------------------------------------------------
pub open spec fn index_at(indexes: Seq<IndexModel>, name: Seq<char>, from: int) -> Option<int>
    decreases indexes.len() - from,
{
    if from < 0 || from >= indexes.len() {
        None
    } else if indexes[from].name == name {
        Some(from)
    } else {
        index_at(indexes, name, from + 1)
    }
}

pub open spec fn has_index(indexes: Seq<IndexModel>, name: Seq<char>) -> bool {
    index_at(indexes, name, 0) is Some
}

pub fn find_index(indexes: &Vec<Index>, name: &str) -> (r: Option<usize>)
    ensures
        r is Some == has_index(indexes.deep_view(), name@),
        r matches Some(i) ==> i < indexes@.len() && index_at(indexes.deep_view(), name@, 0) == Some(
            i as int,
        ),
{
    let mut i: usize = 0;
    while i < indexes.len()
        invariant
            i <= indexes@.len(),
            index_at(indexes.deep_view(), name@, i as int) == index_at(
                indexes.deep_view(),
                name@,
                0,
            ),
        decreases indexes@.len() - i,
    {
        if text::text_equal(indexes[i].name.as_str(), name) {
            return Some(i);
        }
        i += 1;
    }
    None
}

pub open spec fn has_trigger(triggers: Seq<TriggerModel>, name: Seq<char>) -> bool {
    exists|i: int| 0 <= i < triggers.len() && text::same_fold((#[trigger] triggers[i]).name, name)
}

pub fn trigger_exists(triggers: &Vec<TriggerDefinition>, name: &str) -> (r: bool)
    ensures
        r == has_trigger(triggers.deep_view(), name@),
{
    let mut i: usize = 0;
    while i < triggers.len()
        invariant
            i <= triggers@.len(),
            forall|j: int|
                0 <= j < i ==> !text::same_fold((#[trigger] triggers.deep_view()[j]).name, name@),
        decreases triggers@.len() - i,
    {
        if text::eq_fold(triggers[i].name.as_str(), name) {
            assert(text::same_fold(triggers.deep_view()[i as int].name, name@));
            return true;
        }
        i += 1;
    }
    false
}

/// Whether the target of a conditional operation is there.
pub open spec fn target_exists(s: SchemaModel, op: OperationModel) -> Result<bool, Seq<char>>
    decreases op,
{
    match op {
        OperationModel::IfExists(o) => target_exists(s, *o),
        OperationModel::IfNotExists(o) => target_exists(s, *o),
        OperationModel::AddColumn(c) => Ok(schema::has_column(s.columns, c.name)),
        OperationModel::AddColumnAt(c, _) => Ok(schema::has_column(s.columns, c.name)),
        OperationModel::DropColumn(c) => Ok(schema::has_column(s.columns, c)),
        OperationModel::SetColumnDefault(c, _) => Ok(schema::has_column(s.columns, c)),
        OperationModel::AddIndex(i) => Ok(has_index(s.indexes, i.name)),
        OperationModel::DropIndex(i) => Ok(has_index(s.indexes, i)),
        _ => Err("Conditional ALTER is not supported for this operation"@),
    }
}

pub fn conditional_target_exists(s: &TableSchema, op: &AlterTableOperation) -> (r: DbResult<bool>)
    ensures
        error::outcome(r) == target_exists(s@, op@),
    decreases op,
{
    match op {
        AlterTableOperation::IfExists(o) => conditional_target_exists(s, &**o),
        AlterTableOperation::IfNotExists(o) => conditional_target_exists(s, &**o),
        AlterTableOperation::AddColumn(c) => Ok(
            schema::find_column(&s.columns, c.name.as_str()).is_some(),
        ),
        AlterTableOperation::AddColumnAt { column, position: _ } => Ok(
            schema::find_column(&s.columns, column.name.as_str()).is_some(),
        ),
        AlterTableOperation::DropColumn(c) => Ok(
            schema::find_column(&s.columns, c.as_str()).is_some(),
        ),
        AlterTableOperation::SetColumnDefault { column, default: _ } => Ok(
            schema::find_column(&s.columns, column.as_str()).is_some(),
        ),
        AlterTableOperation::AddIndex(i) => Ok(find_index(&s.indexes, i.name.as_str()).is_some()),
        AlterTableOperation::DropIndex(i) => Ok(find_index(&s.indexes, i.as_str()).is_some()),
        _ => Err(DbError::of("Conditional ALTER is not supported for this operation")),
    }
}

/// The place that a position names.
pub open spec fn place(columns: Seq<ColumnModel>, p: PositionModel) -> Result<int, Seq<char>> {
    match p {
        PositionModel::First => Ok(0),
        PositionModel::After(reference) => match schema::column_at(columns, reference, 0) {
            Some(i) => Ok(i + 1),
            None => Err("Unknown column '"@ + reference + "' in 'after clause'"@),
        },
    }
}

pub fn column_insert_index(columns: &Vec<Column>, p: &ColumnPosition) -> (r: DbResult<usize>)
    ensures
        match r {
            Ok(i) => i <= columns@.len() && place(columns.deep_view(), p@) == Ok::<int, Seq<char>>(
                i as int,
            ),
            Err(e) => place(columns.deep_view(), p@) == Err::<int, Seq<char>>(e.message@),
        },
{
    let total: usize = columns.len();
    match p {
        ColumnPosition::First => Ok(0),
        ColumnPosition::After(reference) => match schema::find_column(
            columns,
            reference.as_str(),
        ) {
            Some(i) => {
                assert(i < total);
                Ok(i + 1)
            },
            None => Err(
                DbError::new(
                    error::cat3("Unknown column '", reference.as_str(), "' in 'after clause'"),
                ),
            ),
        },
    }
}

/// Names with each occurrence of one replaced.
pub open spec fn renamed_in(names: Seq<Seq<char>>, old_name: Seq<char>, new_name: Seq<char>) -> Seq<
    Seq<char>,
> {
    names.map_values(
        |n: Seq<char>|
            if n == old_name {
                new_name
            } else {
                n
            },
    )
}

fn rename_in(names: &Vec<String>, old_name: &str, new_name: &str) -> (r: Vec<String>)
    ensures
        r.deep_view() == renamed_in(names.deep_view(), old_name@, new_name@),
{
    let mut out: Vec<String> = Vec::new();
    let mut i: usize = 0;
    while i < names.len()
        invariant
            i <= names@.len(),
            out@.len() == i,
            forall|j: int|
                0 <= j < i ==> (#[trigger] out@[j])@ == (if names@[j]@ == old_name@ {
                    new_name@
                } else {
                    names@[j]@
                }),
        decreases names@.len() - i,
    {
        if text::text_equal(names[i].as_str(), old_name) {
            out.push(text::copy_text(new_name));
        } else {
            out.push(names[i].clone());
        }
        i += 1;
    }
    assert(out.deep_view() =~= renamed_in(names.deep_view(), old_name@, new_name@));
    out
}

pub open spec fn index_renamed(i: IndexModel, old_name: Seq<char>, new_name: Seq<char>) -> IndexModel {
    IndexModel { columns: renamed_in(i.columns, old_name, new_name), ..i }
}

/// A schema whose keys speak of a column by its new name.
pub open spec fn references_replaced(
    s: SchemaModel,
    old_name: Seq<char>,
    new_name: Seq<char>,
) -> SchemaModel {
    SchemaModel {
        primary_key: match s.primary_key {
            Some(names) => Some(renamed_in(names, old_name, new_name)),
            None => None,
        },
        indexes: s.indexes.map_values(|i: IndexModel| index_renamed(i, old_name, new_name)),
        ..s
    }
}

pub fn replace_column_references(s: &mut TableSchema, old_name: &str, new_name: &str)
    ensures
        final(s)@ == references_replaced(old(s)@, old_name@, new_name@),
{
    let ghost before = s@;
    let key = match &s.primary_key {
        Some(names) => Some(rename_in(names, old_name, new_name)),
        None => None,
    };
    let mut indexes: Vec<Index> = Vec::new();
    let mut i: usize = 0;
    while i < s.indexes.len()
        invariant
            i <= s.indexes@.len(),
            indexes@.len() == i,
            s@ == before,
            forall|j: int|
                0 <= j < i ==> (#[trigger] indexes@[j])@ == index_renamed(
                    s.indexes@[j]@,
                    old_name@,
                    new_name@,
                ),
        decreases s.indexes@.len() - i,
    {
        indexes.push(
            Index {
                name: s.indexes[i].name.clone(),
                columns: rename_in(&s.indexes[i].columns, old_name, new_name),
                unique: s.indexes[i].unique,
            },
        );
        i += 1;
    }
    s.primary_key = key;
    s.indexes = indexes;
    assert(s@.indexes =~= references_replaced(before, old_name@, new_name@).indexes);
}

pub open spec fn column_unlike(name: Seq<char>) -> spec_fn(ColumnModel) -> bool {
    |c: ColumnModel| c.name != name
}

pub open spec fn index_unlike(name: Seq<char>) -> spec_fn(IndexModel) -> bool {
    |i: IndexModel| i.name != name
}

pub open spec fn trigger_unlike(name: Seq<char>) -> spec_fn(TriggerModel) -> bool {
    |t: TriggerModel| !text::same_fold(t.name, name)
}

fn columns_without(columns: &Vec<Column>, name: &str) -> (r: Vec<Column>)
    ensures
        r.deep_view() == columns.deep_view().filter(column_unlike(name@)),
{
    let ghost s = columns.deep_view();
    let ghost p = column_unlike(name@);
    let mut out: Vec<Column> = Vec::new();
    let mut i: usize = 0;
    assert(s.take(0).filter(p) =~= Seq::empty()) by {
        reveal(Seq::filter);
    }
    while i < columns.len()
        invariant
            i <= columns@.len(),
            s == columns.deep_view(),
            p == column_unlike(name@),
            out.deep_view() == s.take(i as int).filter(p),
        decreases columns@.len() - i,
    {
        proof {
            seqs::filter_step(s, i as int, p);
        }
        let ghost before = out.deep_view();
        if !text::text_equal(columns[i].name.as_str(), name) {
            out.push(columns[i].clone());
            assert(out.deep_view() =~= before.push(s[i as int]));
        }
        i += 1;
    }
    assert(s.take(i as int) =~= s);
    out
}

fn indexes_without(indexes: &Vec<Index>, name: &str) -> (r: Vec<Index>)
    ensures
        r.deep_view() == indexes.deep_view().filter(index_unlike(name@)),
{
    let ghost s = indexes.deep_view();
    let ghost p = index_unlike(name@);
    let mut out: Vec<Index> = Vec::new();
    let mut i: usize = 0;
    assert(s.take(0).filter(p) =~= Seq::empty()) by {
        reveal(Seq::filter);
    }
    while i < indexes.len()
        invariant
            i <= indexes@.len(),
            s == indexes.deep_view(),
            p == index_unlike(name@),
            out.deep_view() == s.take(i as int).filter(p),
        decreases indexes@.len() - i,
    {
        proof {
            seqs::filter_step(s, i as int, p);
        }
        let ghost before = out.deep_view();
        if !text::text_equal(indexes[i].name.as_str(), name) {
            out.push(indexes[i].clone());
            assert(out.deep_view() =~= before.push(s[i as int]));
        }
        i += 1;
    }
    assert(s.take(i as int) =~= s);
    out
}

fn triggers_without(triggers: &Vec<TriggerDefinition>, name: &str) -> (r: Vec<TriggerDefinition>)
    ensures
        r.deep_view() == triggers.deep_view().filter(trigger_unlike(name@)),
{
    let ghost s = triggers.deep_view();
    let ghost p = trigger_unlike(name@);
    let mut out: Vec<TriggerDefinition> = Vec::new();
    let mut i: usize = 0;
    assert(s.take(0).filter(p) =~= Seq::empty()) by {
        reveal(Seq::filter);
    }
    while i < triggers.len()
        invariant
            i <= triggers@.len(),
            s == triggers.deep_view(),
            p == trigger_unlike(name@),
            out.deep_view() == s.take(i as int).filter(p),
        decreases triggers@.len() - i,
    {
        proof {
            seqs::filter_step(s, i as int, p);
        }
        let ghost before = out.deep_view();
        if !text::eq_fold(triggers[i].name.as_str(), name) {
            out.push(triggers[i].clone());
            assert(out.deep_view() =~= before.push(s[i as int]));
        }
        i += 1;
    }
    assert(s.take(i as int) =~= s);
    out
}

/// The first name at or after `at` that no column has.
pub open spec fn missing_from(columns: Seq<ColumnModel>, names: Seq<Seq<char>>, at: int) -> Option<
    Seq<char>,
>
    decreases names.len() - at,
{
    if at < 0 || at >= names.len() {
        None
    } else if !schema::has_column(columns, names[at]) {
        Some(names[at])
    } else {
        missing_from(columns, names, at + 1)
    }
}

/// Checks that every name is a column.
pub fn check_columns(columns: &Vec<Column>, names: &Vec<String>) -> (r: DbResult<()>)
    ensures
        match r {
            Ok(_) => missing_from(columns.deep_view(), names.deep_view(), 0) is None,
            Err(e) => missing_from(columns.deep_view(), names.deep_view(), 0) matches Some(n)
                && e.message@ == schema::unknown_column(n),
        },
{
    let mut i: usize = 0;
    while i < names.len()
        invariant
            i <= names@.len(),
            missing_from(columns.deep_view(), names.deep_view(), i as int) == missing_from(
                columns.deep_view(),
                names.deep_view(),
                0,
            ),
        decreases names@.len() - i,
    {
        assert(names.deep_view()[i as int] == names@[i as int]@);
        if schema::find_column(columns, names[i].as_str()).is_none() {
            return Err(schema::unknown_column_error(names[i].as_str()));
        }
        i += 1;
    }
    Ok(())
}

/// A column under a primary key that the table declares: not marked itself, and not nullable
/// where the key names it.
pub open spec fn keyed(c: ColumnModel, names: Seq<Seq<char>>) -> ColumnModel {
    ColumnModel {
        is_primary_key: false,
        nullable: if names.contains(c.name) {
            false
        } else {
            c.nullable
        },
        ..c
    }
}

fn key_columns(columns: &Vec<Column>, names: &Vec<String>) -> (r: Vec<Column>)
    ensures
        r.deep_view() == columns.deep_view().map_values(
            |c: ColumnModel| keyed(c, names.deep_view()),
        ),
{
    let mut out: Vec<Column> = Vec::new();
    let mut i: usize = 0;
    while i < columns.len()
        invariant
            i <= columns@.len(),
            out@.len() == i,
            forall|j: int|
                0 <= j < i ==> (#[trigger] out@[j])@ == keyed(columns@[j]@, names.deep_view()),
        decreases columns@.len() - i,
    {
        let mut c = columns[i].clone();
        c.is_primary_key = false;
        if assoc::has_name(names, c.name.as_str()) {
            c.nullable = false;
        }
        out.push(c);
        i += 1;
    }
    assert(out.deep_view() =~= columns.deep_view().map_values(
        |c: ColumnModel| keyed(c, names.deep_view()),
    ));
    out
}

// ---------------------------------------------------------------------------------------------
// Constraints by name
// ---------------------------------------------------------------------------------------------
pub open spec fn key_unlike(table: Seq<char>, name: Seq<char>) -> spec_fn(Seq<char>) -> bool {
    |d: Seq<char>| !fkeys::names_key(table, d, name)
}

pub open spec fn any_key(table: Seq<char>, constraints: Seq<Seq<char>>, name: Seq<char>) -> bool {
    exists|i: int|
        0 <= i < constraints.len() && fkeys::names_key(table, #[trigger] constraints[i], name)
}

fn key_exists(table: &str, constraints: &Vec<String>, name: &str) -> (r: bool)
    ensures
        r == any_key(table@, constraints.deep_view(), name@),
{
    let mut i: usize = 0;
    while i < constraints.len()
        invariant
            i <= constraints@.len(),
            forall|j: int|
                0 <= j < i ==> !fkeys::names_key(
                    table@,
                    #[trigger] constraints.deep_view()[j],
                    name@,
                ),
        decreases constraints@.len() - i,
    {
        assert(constraints.deep_view()[i as int] == constraints@[i as int]@);
        if fkeys::definition_names_key(table, constraints[i].as_str(), name) {
            return true;
        }
        i += 1;
    }
    false
}

fn constraints_without_key(table: &str, constraints: &Vec<String>, name: &str) -> (r: Vec<String>)
    ensures
        r.deep_view() == constraints.deep_view().filter(key_unlike(table@, name@)),
{
    let ghost s = constraints.deep_view();
    let ghost p = key_unlike(table@, name@);
    let mut out: Vec<String> = Vec::new();
    let mut i: usize = 0;
    assert(s.take(0).filter(p) =~= Seq::empty()) by {
        reveal(Seq::filter);
    }
    while i < constraints.len()
        invariant
            i <= constraints@.len(),
            s == constraints.deep_view(),
            p == key_unlike(table@, name@),
            out.deep_view() == s.take(i as int).filter(p),
        decreases constraints@.len() - i,
    {
        proof {
            seqs::filter_step(s, i as int, p);
        }
        let ghost before = out.deep_view();
        if !fkeys::definition_names_key(table, constraints[i].as_str(), name) {
            out.push(constraints[i].clone());
            assert(out.deep_view() =~= before.push(s[i as int]));
        }
        i += 1;
    }
    assert(s.take(i as int) =~= s);
    out
}

pub open spec fn any_check(table: Seq<char>, constraints: Seq<Seq<char>>, name: Seq<char>) -> bool {
    exists|i: int|
        0 <= i < constraints.len() && checks::check_name(table, #[trigger] constraints[i], i)
            == Some(name)
}

fn is_check_named(table: &str, definition: &str, index: usize, name: &str) -> (r: bool)
    ensures
        r == (checks::check_name(table@, definition@, index as int) == Some(name@)),
{
    match checks::check_constraint_name(table, definition, index) {
        Some(found) => text::text_equal(found.as_str(), name),
        None => false,
    }
}

fn check_exists(table: &str, constraints: &Vec<String>, name: &str) -> (r: bool)
    ensures
        r == any_check(table@, constraints.deep_view(), name@),
{
    let mut i: usize = 0;
    while i < constraints.len()
        invariant
            i <= constraints@.len(),
            forall|j: int|
                0 <= j < i ==> checks::check_name(
                    table@,
                    #[trigger] constraints.deep_view()[j],
                    j,
                ) != Some(name@),
        decreases constraints@.len() - i,
    {
        assert(constraints.deep_view()[i as int] == constraints@[i as int]@);
        if is_check_named(table, constraints[i].as_str(), i, name) {
            return true;
        }
        i += 1;
    }
    false
}

/// The first `n` constraints without the checks of a name.
pub open spec fn checks_dropped(
    table: Seq<char>,
    constraints: Seq<Seq<char>>,
    name: Seq<char>,
    n: int,
) -> Seq<Seq<char>>
    decreases n,
{
    if n <= 0 {
        Seq::empty()
    } else if checks::check_name(table, constraints[n - 1], n - 1) == Some(name) {
        checks_dropped(table, constraints, name, n - 1)
    } else {
        checks_dropped(table, constraints, name, n - 1).push(constraints[n - 1])
    }
}

fn constraints_without_check(table: &str, constraints: &Vec<String>, name: &str) -> (r: Vec<String>)
    ensures
        r.deep_view() == checks_dropped(
            table@,
            constraints.deep_view(),
            name@,
            constraints@.len() as int,
        ),
{
    let ghost s = constraints.deep_view();
    let mut out: Vec<String> = Vec::new();
    let mut i: usize = 0;
    assert(out.deep_view() =~= Seq::empty());
    while i < constraints.len()
        invariant
            i <= constraints@.len(),
            s == constraints.deep_view(),
            out.deep_view() == checks_dropped(table@, s, name@, i as int),
        decreases constraints@.len() - i,
    {
        assert(s[i as int] == constraints@[i as int]@);
        let ghost before = out.deep_view();
        if !is_check_named(table, constraints[i].as_str(), i, name) {
            out.push(constraints[i].clone());
            assert(out.deep_view() =~= before.push(s[i as int]));
        }
        i += 1;
    }
    out
}

// ---------------------------------------------------------------------------------------------
// Altering
// ---------------------------------------------------------------------------------------------
/// What an operation changes: the schema, the constraint definitions, and the renaming of a
/// column.
pub type Change = (SchemaModel, Seq<Seq<char>>, Option<(Seq<char>, Seq<char>)>);

pub open spec fn duplicate_column(name: Seq<char>) -> Seq<char> {
    "Duplicate column '"@ + name + "'"@
}

pub open spec fn renaming(a: Seq<char>, b: Seq<char>) -> Option<(Seq<char>, Seq<char>)> {
    if a == b {
        None
    } else {
        Some((a, b))
    }
}

/// The outcome of an unconditional operation on a schema and its constraint definitions.
pub open spec fn changed(s: SchemaModel, k: Seq<Seq<char>>, op: OperationModel) -> Result<
    Change,
    Seq<char>,
> {
    match op {
        OperationModel::AddColumn(c) => if schema::has_column(s.columns, c.name) {
            Err(duplicate_column(c.name))
        } else {
            Ok((SchemaModel { columns: s.columns.push(c), ..s }, k, None))
        },
        OperationModel::AddColumnAt(c, p) => if schema::has_column(s.columns, c.name) {
            Err(duplicate_column(c.name))
        } else {
            match place(s.columns, p) {
                Err(m) => Err(m),
                Ok(i) => Ok((SchemaModel { columns: s.columns.insert(i, c), ..s }, k, None)),
            }
        },
        OperationModel::DropColumn(name) => {
            let rest = s.columns.filter(column_unlike(name));
            if rest.len() == s.columns.len() {
                Err(schema::unknown_column(name))
            } else {
                Ok((SchemaModel { columns: rest, ..s }, k, None))
            }
        },
        OperationModel::ModifyColumn(c) => match schema::column_at(s.columns, c.name, 0) {
            None => Err(schema::unknown_column(c.name)),
            Some(i) => Ok((SchemaModel { columns: s.columns.update(i, c), ..s }, k, None)),
        },
        OperationModel::ModifyColumnAt(c, p) => match schema::column_at(s.columns, c.name, 0) {
            None => Err(schema::unknown_column(c.name)),
            Some(i) => {
                let rest = s.columns.remove(i);
                match place(rest, p) {
                    Err(m) => Err(m),
                    Ok(j) => Ok((SchemaModel { columns: rest.insert(j, c), ..s }, k, None)),
                }
            },
        },
        OperationModel::ChangeColumn(old_name, c, p) => match schema::column_at(
            s.columns,
            old_name,
            0,
        ) {
            None => Err(schema::unknown_column(old_name)),
            Some(i) => if old_name != c.name && schema::has_column(s.columns, c.name) {
                Err(duplicate_column(c.name))
            } else {
                let rest = s.columns.remove(i);
                let target = match p {
                    Some(position) => place(rest, position),
                    None => Ok(i),
                };
                match target {
                    Err(m) => Err(m),
                    Ok(j) => Ok(
                        (
                            references_replaced(
                                SchemaModel { columns: rest.insert(j, c), ..s },
                                old_name,
                                c.name,
                            ),
                            k,
                            renaming(old_name, c.name),
                        ),
                    ),
                }
            },
        },
        OperationModel::RenameColumn(old_name, new_name) => if old_name != new_name
            && schema::has_column(s.columns, new_name) {
            Err(duplicate_column(new_name))
        } else {
            match schema::column_at(s.columns, old_name, 0) {
                None => Err(schema::unknown_column(old_name)),
                Some(i) => Ok(
                    (
                        references_replaced(
                            SchemaModel {
                                columns: s.columns.update(
                                    i,
                                    ColumnModel { name: new_name, ..s.columns[i] },
                                ),
                                ..s
                            },
                            old_name,
                            new_name,
                        ),
                        k,
                        renaming(old_name, new_name),
                    ),
                ),
            }
        },
        OperationModel::AddPrimaryKey(names) => if schema::primary_key(s).len() > 0 {
            Err("Multiple primary key defined"@)
        } else if names.len() == 0 {
            Err("A primary key must include at least one column"@)
        } else {
            match missing_from(s.columns, names, 0) {
                Some(n) => Err(schema::unknown_column(n)),
                None => Ok(
                    (
                        SchemaModel {
                            columns: s.columns.map_values(|c: ColumnModel| keyed(c, names)),
                            primary_key: Some(names),
                            ..s
                        },
                        k,
                        None,
                    ),
                ),
            }
        },
        OperationModel::DropPrimaryKey => if schema::primary_key(s).len() == 0 {
            Err("Can't DROP 'PRIMARY'; check that column/key exists"@)
        } else {
            Ok(
                (
                    SchemaModel {
                        columns: s.columns.map_values(
                            |c: ColumnModel| ColumnModel { is_primary_key: false, ..c },
                        ),
                        primary_key: None,
                        ..s
                    },
                    k,
                    None,
                ),
            )
        },
        OperationModel::AddIndex(i) => if has_index(s.indexes, i.name) {
            Err("Duplicate key name '"@ + i.name + "'"@)
        } else {
            match missing_from(s.columns, i.columns, 0) {
                Some(n) => Err(schema::unknown_column(n)),
                None => Ok((SchemaModel { indexes: s.indexes.push(i), ..s }, k, None)),
            }
        },
        OperationModel::DropIndex(name) => {
            let rest = s.indexes.filter(index_unlike(name));
            if rest.len() == s.indexes.len() {
                Err("Can't DROP '"@ + name + "'; check that index exists"@)
            } else {
                Ok((SchemaModel { indexes: rest, ..s }, k, None))
            }
        },
        OperationModel::RenameIndex(old_name, new_name) => if old_name != new_name && has_index(
            s.indexes,
            new_name,
        ) {
            Err("Duplicate key name '"@ + new_name + "'"@)
        } else {
            match index_at(s.indexes, old_name, 0) {
                None => Err("Key '"@ + old_name + "' doesn't exist in table '"@ + s.name + "'"@),
                Some(i) => Ok(
                    (
                        SchemaModel {
                            indexes: s.indexes.update(
                                i,
                                IndexModel { name: new_name, ..s.indexes[i] },
                            ),
                            ..s
                        },
                        k,
                        None,
                    ),
                ),
            }
        },
        OperationModel::AddForeignKey(name, d) => if any_key(s.name, k, name) {
            Err("Duplicate foreign key constraint name '"@ + name + "'"@)
        } else {
            match fkeys::foreign_key_in(s.name, d) {
                None => Err("Invalid FOREIGN KEY definition"@),
                Some(key) => match missing_from(s.columns, key.child_columns, 0) {
                    Some(n) => Err(schema::unknown_column(n)),
                    None => Ok((s, k.push(d), None)),
                },
            }
        },
        OperationModel::DropForeignKey(name) => {
            let rest = k.filter(key_unlike(s.name, name));
            if rest.len() == k.len() {
                Err("Can't DROP '"@ + name + "'; check that column/key exists"@)
            } else {
                Ok((s, rest, None))
            }
        },
        OperationModel::AddCheck(name, d) => if any_check(s.name, k, name) {
            Err("Duplicate check constraint name '"@ + name + "'"@)
        } else if checks::check_name(s.name, d, k.len() as int) is None {
            Err("Invalid CHECK definition"@)
        } else {
            Ok((s, k.push(d), None))
        },
        OperationModel::DropCheck(name) => {
            let rest = checks_dropped(s.name, k, name, k.len() as int);
            if rest.len() == k.len() {
                Err("Check constraint '"@ + name + "' is not found in table '"@ + s.name + "'"@)
            } else {
                Ok((s, rest, None))
            }
        },
        OperationModel::SetColumnDefault(name, default) => match schema::column_at(
            s.columns,
            name,
            0,
        ) {
            None => Err(schema::unknown_column(name)),
            Some(i) => Ok(
                (
                    SchemaModel {
                        columns: s.columns.update(
                            i,
                            ColumnModel { default: default, ..s.columns[i] },
                        ),
                        ..s
                    },
                    k,
                    None,
                ),
            ),
        },
        OperationModel::AddTrigger(t) => if has_trigger(s.triggers, t.name) {
            Err("Trigger '"@ + t.name + "' already exists"@)
        } else {
            Ok((SchemaModel { triggers: s.triggers.push(t), ..s }, k, None))
        },
        OperationModel::DropTrigger(name) => {
            let rest = s.triggers.filter(trigger_unlike(name));
            if rest.len() == s.triggers.len() {
                Err("Trigger '"@ + name + "' does not exist"@)
            } else {
                Ok((SchemaModel { triggers: rest, ..s }, k, None))
            }
        },
        OperationModel::IfExists(_) => Err(""@),
        OperationModel::IfNotExists(_) => Err(""@),
    }
}

/// The AUTO_INCREMENT column after a change: the same one, under its new name where it was
/// renamed, as long as it is there.
pub open spec fn carried_auto(s: SchemaModel, change: Change) -> Option<Seq<char>> {
    match sqltext::auto_increment(s) {
        None => None,
        Some(name) => {
            let now = match change.2 {
                Some((old_name, new_name)) => if old_name == name {
                    new_name
                } else {
                    name
                },
                None => name,
            };
            if schema::has_column(change.0.columns, now) {
                Some(now)
            } else {
                None
            }
        },
    }
}

/// The outcome of an operation: the new schema with its text, and the renaming of a column.
pub open spec fn altered(s: SchemaModel, op: OperationModel) -> Result<
    (SchemaModel, Option<(Seq<char>, Seq<char>)>),
    Seq<char>,
>
    decreases op,
{
    match op {
        OperationModel::IfExists(o) => match target_exists(s, *o) {
            Err(m) => Err(m),
            Ok(there) => if there {
                altered(s, *o)
            } else {
                Ok((s, None))
            },
        },
        OperationModel::IfNotExists(o) => match target_exists(s, *o) {
            Err(m) => Err(m),
            Ok(there) => if there {
                Ok((s, None))
            } else {
                altered(s, *o)
            },
        },
        _ => match changed(s, sqltext::constraint_definitions(s), op) {
            Err(m) => Err(m),
            Ok(change) => Ok(
                (
                    SchemaModel {
                        create_sql: Some(
                            sqltext::schema_sql(change.0, carried_auto(s, change), change.1),
                        ),
                        ..change.0
                    },
                    change.2,
                ),
            ),
        },
    }
}

/// An operation changes neither a table's name nor where its pages stand.
pub proof fn altered_keeps_pages(s: SchemaModel, op: OperationModel)
    ensures
        altered(s, op) matches Ok((next, _)) ==> next.name == s.name && next.next_page_number
            == s.next_page_number && next.generation == s.generation && next.engine == s.engine,
    decreases op,
{
    match op {
        OperationModel::IfExists(o) => altered_keeps_pages(s, *o),
        OperationModel::IfNotExists(o) => altered_keeps_pages(s, *o),
        _ => {},
    }
}

fn note_rename(a: &str, b: &str) -> (r: Option<(String, String)>)
    ensures
        r.deep_view() == renaming(a@, b@),
{
    if text::text_equal(a, b) {
        None
    } else {
        Some((text::copy_text(a), text::copy_text(b)))
    }
}

fn duplicate_column_error(name: &str) -> (r: DbError)
    ensures
        r.message@ == duplicate_column(name@),
{
    DbError::new(error::cat3("Duplicate column '", name, "'"))
}

/// Applies an operation on columns.
fn change_columns(
    mut s: TableSchema,
    k: Vec<String>,
    op: &AlterTableOperation,
) -> (r: DbResult<(TableSchema, Vec<String>, Option<(String, String)>)>)
    requires
        op@ is AddColumn || op@ is AddColumnAt || op@ is DropColumn || op@ is ModifyColumn || op@
            is ModifyColumnAt || op@ is ChangeColumn || op@ is RenameColumn || op@
            is SetColumnDefault,
    ensures
        error::outcome(r) == changed(s@, k.deep_view(), op@),
{
    let ghost before = s@;
    match op {
        AlterTableOperation::AddColumn(c) => {
            if schema::find_column(&s.columns, c.name.as_str()).is_some() {
                return Err(duplicate_column_error(c.name.as_str()));
            }
            s.columns.push(c.clone());
            assert(s@.columns =~= before.columns.push(c@));
            Ok((s, k, None))
        },
        AlterTableOperation::AddColumnAt { column, position } => {
            if schema::find_column(&s.columns, column.name.as_str()).is_some() {
                return Err(duplicate_column_error(column.name.as_str()));
            }
            match column_insert_index(&s.columns, position) {
                Err(m) => Err(m),
                Ok(i) => {
                    s.columns.insert(i, column.clone());
                    assert(s@.columns =~= before.columns.insert(i as int, column@));
                    Ok((s, k, None))
                },
            }
        },
        AlterTableOperation::DropColumn(name) => {
            let rest = columns_without(&s.columns, name.as_str());
            if rest.len() == s.columns.len() {
                return Err(schema::unknown_column_error(name.as_str()));
            }
            s.columns = rest;
            Ok((s, k, None))
        },
        AlterTableOperation::ModifyColumn(c) => match schema::find_column(
            &s.columns,
            c.name.as_str(),
        ) {
            None => Err(schema::unknown_column_error(c.name.as_str())),
            Some(i) => {
                s.columns.set(i, c.clone());
                assert(s@.columns =~= before.columns.update(i as int, c@));
                Ok((s, k, None))
            },
        },
        AlterTableOperation::ModifyColumnAt { column, position } => match schema::find_column(
            &s.columns,
            column.name.as_str(),
        ) {
            None => Err(schema::unknown_column_error(column.name.as_str())),
            Some(i) => {
                let _gone = s.columns.remove(i);
                let ghost rest = before.columns.remove(i as int);
                assert(s.columns.deep_view() =~= rest);
                match column_insert_index(&s.columns, position) {
                    Err(m) => Err(m),
                    Ok(j) => {
                        s.columns.insert(j, column.clone());
                        assert(s@.columns =~= rest.insert(j as int, column@));
                        Ok((s, k, None))
                    },
                }
            },
        },
        AlterTableOperation::ChangeColumn { old_name, column, position } => match schema::find_column(
            &s.columns,
            old_name.as_str(),
        ) {
            None => Err(schema::unknown_column_error(old_name.as_str())),
            Some(i) => {
                if !text::text_equal(old_name.as_str(), column.name.as_str())
                    && schema::find_column(&s.columns, column.name.as_str()).is_some() {
                    return Err(duplicate_column_error(column.name.as_str()));
                }
                let _gone = s.columns.remove(i);
                let ghost rest = before.columns.remove(i as int);
                assert(s.columns.deep_view() =~= rest);
                let j: usize = match position {
                    Some(p) => match column_insert_index(&s.columns, p) {
                        Err(m) => {
                            return Err(m);
                        },
                        Ok(j) => j,
                    },
                    None => i,
                };
                s.columns.insert(j, column.clone());
                assert(s@.columns =~= rest.insert(j as int, column@));
                replace_column_references(&mut s, old_name.as_str(), column.name.as_str());
                Ok((s, k, note_rename(old_name.as_str(), column.name.as_str())))
            },
        },
        AlterTableOperation::RenameColumn { old_name, new_name } => {
            if !text::text_equal(old_name.as_str(), new_name.as_str()) && schema::find_column(
                &s.columns,
                new_name.as_str(),
            ).is_some() {
                return Err(duplicate_column_error(new_name.as_str()));
            }
            match schema::find_column(&s.columns, old_name.as_str()) {
                None => Err(schema::unknown_column_error(old_name.as_str())),
                Some(i) => {
                    let mut c = s.columns[i].clone();
                    c.name = new_name.clone();
                    s.columns.set(i, c);
                    assert(s@.columns =~= before.columns.update(
                        i as int,
                        ColumnModel { name: new_name@, ..before.columns[i as int] },
                    ));
                    replace_column_references(&mut s, old_name.as_str(), new_name.as_str());
                    Ok((s, k, note_rename(old_name.as_str(), new_name.as_str())))
                },
            }
        },
        AlterTableOperation::SetColumnDefault { column, default } => match schema::find_column(
            &s.columns,
            column.as_str(),
        ) {
            None => Err(schema::unknown_column_error(column.as_str())),
            Some(i) => {
                let mut c = s.columns[i].clone();
                c.default = schema::copy_option(default);
                s.columns.set(i, c);
                assert(s@.columns =~= before.columns.update(
                    i as int,
                    ColumnModel { default: default.deep_view(), ..before.columns[i as int] },
                ));
                Ok((s, k, None))
            },
        },
        _ => Err(DbError::of("")),
    }
}

fn unmarked(columns: &Vec<Column>) -> (r: Vec<Column>)
    ensures
        r.deep_view() == columns.deep_view().map_values(
            |c: ColumnModel| ColumnModel { is_primary_key: false, ..c },
        ),
{
    let mut out: Vec<Column> = Vec::new();
    let mut i: usize = 0;
    while i < columns.len()
        invariant
            i <= columns@.len(),
            out@.len() == i,
            forall|j: int|
                0 <= j < i ==> (#[trigger] out@[j])@ == (ColumnModel {
                    is_primary_key: false,
                    ..columns@[j]@
                }),
        decreases columns@.len() - i,
    {
        let mut c = columns[i].clone();
        c.is_primary_key = false;
        out.push(c);
        i += 1;
    }
    assert(out.deep_view() =~= columns.deep_view().map_values(
        |c: ColumnModel| ColumnModel { is_primary_key: false, ..c },
    ));
    out
}

/// Applies an operation on keys and indexes.
fn change_keys(
    mut s: TableSchema,
    k: Vec<String>,
    op: &AlterTableOperation,
) -> (r: DbResult<(TableSchema, Vec<String>, Option<(String, String)>)>)
    requires
        op@ is AddPrimaryKey || op@ is DropPrimaryKey || op@ is AddIndex || op@ is DropIndex || op@
            is RenameIndex,
    ensures
        error::outcome(r) == changed(s@, k.deep_view(), op@),
{
    let ghost before = s@;
    match op {
        AlterTableOperation::AddPrimaryKey(names) => {
            let current = schema::primary_key_columns(&s);
            assert(current.deep_view().len() == current@.len());
            assert(names.deep_view().len() == names@.len());
            if current.len() > 0 {
                return Err(DbError::of("Multiple primary key defined"));
            }
            if names.len() == 0 {
                return Err(DbError::of("A primary key must include at least one column"));
            }
            match check_columns(&s.columns, names) {
                Err(m) => Err(m),
                Ok(_) => {
                    s.columns = key_columns(&s.columns, names);
                    s.primary_key = Some(row::copy_names(names));
                    Ok((s, k, None))
                },
            }
        },
        AlterTableOperation::DropPrimaryKey => {
            let current = schema::primary_key_columns(&s);
            assert(current.deep_view().len() == current@.len());
            if current.len() == 0 {
                return Err(DbError::of("Can't DROP 'PRIMARY'; check that column/key exists"));
            }
            s.primary_key = None;
            s.columns = unmarked(&s.columns);
            Ok((s, k, None))
        },
        AlterTableOperation::AddIndex(i) => {
            if find_index(&s.indexes, i.name.as_str()).is_some() {
                return Err(
                    DbError::new(error::cat3("Duplicate key name '", i.name.as_str(), "'")),
                );
            }
            match check_columns(&s.columns, &i.columns) {
                Err(m) => Err(m),
                Ok(_) => {
                    s.indexes.push(i.clone());
                    assert(s@.indexes =~= before.indexes.push(i@));
                    Ok((s, k, None))
                },
            }
        },
        AlterTableOperation::DropIndex(name) => {
            let rest = indexes_without(&s.indexes, name.as_str());
            if rest.len() == s.indexes.len() {
                return Err(
                    DbError::new(
                        error::cat3("Can't DROP '", name.as_str(), "'; check that index exists"),
                    ),
                );
            }
            s.indexes = rest;
            Ok((s, k, None))
        },
        AlterTableOperation::RenameIndex { old_name, new_name } => {
            if !text::text_equal(old_name.as_str(), new_name.as_str()) && find_index(
                &s.indexes,
                new_name.as_str(),
            ).is_some() {
                return Err(
                    DbError::new(error::cat3("Duplicate key name '", new_name.as_str(), "'")),
                );
            }
            match find_index(&s.indexes, old_name.as_str()) {
                None => Err(
                    DbError::new(
                        error::cat5(
                            "Key '",
                            old_name.as_str(),
                            "' doesn't exist in table '",
                            s.name.as_str(),
                            "'",
                        ),
                    ),
                ),
                Some(i) => {
                    let mut index = s.indexes[i].clone();
                    index.name = new_name.clone();
                    s.indexes.set(i, index);
                    assert(s@.indexes =~= before.indexes.update(
                        i as int,
                        IndexModel { name: new_name@, ..before.indexes[i as int] },
                    ));
                    Ok((s, k, None))
                },
            }
        },
        _ => Err(DbError::of("")),
    }
}

/// Applies an operation on constraints and triggers.
fn change_constraints(
    mut s: TableSchema,
    mut k: Vec<String>,
    op: &AlterTableOperation,
) -> (r: DbResult<(TableSchema, Vec<String>, Option<(String, String)>)>)
    requires
        op@ is AddForeignKey || op@ is DropForeignKey || op@ is AddCheck || op@ is DropCheck || op@
            is AddTrigger || op@ is DropTrigger,
    ensures
        error::outcome(r) == changed(s@, k.deep_view(), op@),
{
    let ghost before = s@;
    let ghost list = k.deep_view();
    match op {
        AlterTableOperation::AddForeignKey { name, definition } => {
            if key_exists(s.name.as_str(), &k, name.as_str()) {
                return Err(
                    DbError::new(
                        error::cat3(
                            "Duplicate foreign key constraint name '",
                            name.as_str(),
                            "'",
                        ),
                    ),
                );
            }
            match fkeys::parse_foreign_key_definition(s.name.as_str(), definition.as_str()) {
                None => Err(DbError::of("Invalid FOREIGN KEY definition")),
                Some(key) => match check_columns(&s.columns, &key.child_columns) {
                    Err(m) => Err(m),
                    Ok(_) => {
                        k.push(definition.clone());
                        assert(k.deep_view() =~= list.push(definition@));
                        Ok((s, k, None))
                    },
                },
            }
        },
        AlterTableOperation::DropForeignKey(name) => {
            let rest = constraints_without_key(s.name.as_str(), &k, name.as_str());
            assert(rest.deep_view().len() == rest@.len());
            if rest.len() == k.len() {
                return Err(
                    DbError::new(
                        error::cat3(
                            "Can't DROP '",
                            name.as_str(),
                            "'; check that column/key exists",
                        ),
                    ),
                );
            }
            Ok((s, rest, None))
        },
        AlterTableOperation::AddCheck { name, definition } => {
            if check_exists(s.name.as_str(), &k, name.as_str()) {
                return Err(
                    DbError::new(
                        error::cat3("Duplicate check constraint name '", name.as_str(), "'"),
                    ),
                );
            }
            if checks::check_constraint_name(
                s.name.as_str(),
                definition.as_str(),
                k.len(),
            ).is_none() {
                return Err(DbError::of("Invalid CHECK definition"));
            }
            k.push(definition.clone());
            assert(k.deep_view() =~= list.push(definition@));
            Ok((s, k, None))
        },
        AlterTableOperation::DropCheck(name) => {
            let rest = constraints_without_check(s.name.as_str(), &k, name.as_str());
            assert(rest.deep_view().len() == rest@.len());
            if rest.len() == k.len() {
                return Err(
                    DbError::new(
                        error::cat5(
                            "Check constraint '",
                            name.as_str(),
                            "' is not found in table '",
                            s.name.as_str(),
                            "'",
                        ),
                    ),
                );
            }
            Ok((s, rest, None))
        },
        AlterTableOperation::AddTrigger(t) => {
            if trigger_exists(&s.triggers, t.name.as_str()) {
                return Err(
                    DbError::new(error::cat3("Trigger '", t.name.as_str(), "' already exists")),
                );
            }
            s.triggers.push(t.clone());
            assert(s@.triggers =~= before.triggers.push(t@));
            Ok((s, k, None))
        },
        AlterTableOperation::DropTrigger(name) => {
            let rest = triggers_without(&s.triggers, name.as_str());
            if rest.len() == s.triggers.len() {
                return Err(
                    DbError::new(error::cat3("Trigger '", name.as_str(), "' does not exist")),
                );
            }
            s.triggers = rest;
            Ok((s, k, None))
        },
        _ => Err(DbError::of("")),
    }
}

fn carry_auto(
    auto: Option<String>,
    columns: &Vec<Column>,
    renamed: &Option<(String, String)>,
) -> (r: Option<String>)
    ensures
        r.deep_view() == (match auto.deep_view() {
            None => None,
            Some(name) => {
                let now = match renamed.deep_view() {
                    Some((old_name, new_name)) => if old_name == name {
                        new_name
                    } else {
                        name
                    },
                    None => name,
                };
                if schema::has_column(columns.deep_view(), now) {
                    Some(now)
                } else {
                    None
                }
            },
        }),
{
    match auto {
        None => None,
        Some(name) => {
            let now = match renamed {
                Some(pair) => if text::text_equal(pair.0.as_str(), name.as_str()) {
                    pair.1.clone()
                } else {
                    name
                },
                None => name,
            };
            if schema::find_column(columns, now.as_str()).is_some() {
                Some(now)
            } else {
                None
            }
        },
    }
}

/// What an operation makes of a schema.
pub fn alter_schema(s: &TableSchema, op: &AlterTableOperation) -> (r: DbResult<
    (TableSchema, Option<(String, String)>),
>)
    ensures
        error::outcome(r) == altered(s@, op@),
    decreases op,
{
    match op {
        AlterTableOperation::IfExists(o) => {
            return match conditional_target_exists(s, &**o) {
                Err(m) => Err(m),
                Ok(there) => if there {
                    alter_schema(s, &**o)
                } else {
                    Ok((s.clone(), None))
                },
            };
        },
        AlterTableOperation::IfNotExists(o) => {
            return match conditional_target_exists(s, &**o) {
                Err(m) => Err(m),
                Ok(there) => if there {
                    Ok((s.clone(), None))
                } else {
                    alter_schema(s, &**o)
                },
            };
        },
        _ => {},
    }
    let auto = sqltext::auto_increment_column(s);
    let constraints = sqltext::table_constraint_definitions(s);
    let outcome = match op {
        AlterTableOperation::AddPrimaryKey(_) | AlterTableOperation::DropPrimaryKey
        | AlterTableOperation::AddIndex(_) | AlterTableOperation::DropIndex(_)
        | AlterTableOperation::RenameIndex { .. } => change_keys(s.clone(), constraints, op),
        AlterTableOperation::AddForeignKey { .. } | AlterTableOperation::DropForeignKey(_)
        | AlterTableOperation::AddCheck { .. } | AlterTableOperation::DropCheck(_)
        | AlterTableOperation::AddTrigger(_) | AlterTableOperation::DropTrigger(_) =>
            change_constraints(s.clone(), constraints, op),
        _ => change_columns(s.clone(), constraints, op),
    };
    match outcome {
        Err(m) => Err(m),
        Ok(change) => {
            let (mut next, list, renamed) = change;
            let carried = carry_auto(auto, &next.columns, &renamed);
            let sql = sqltext::render_table_schema_sql(&next, &carried, &list);
            next.create_sql = Some(sql);
            Ok((next, renamed))
        },
    }
}

/// What an operation that fails leaves of a schema. A column that is to move behind one that is not
/// there has been taken out by then; otherwise the schema stays as it is.
pub open spec fn left_behind(s: SchemaModel, op: OperationModel) -> SchemaModel
    decreases op,
{
    match op {
        OperationModel::IfExists(o) => if target_exists(s, *o) == Ok::<bool, Seq<char>>(true) {
            left_behind(s, *o)
        } else {
            s
        },
        OperationModel::IfNotExists(o) => if target_exists(s, *o) == Ok::<bool, Seq<char>>(false) {
            left_behind(s, *o)
        } else {
            s
        },
        OperationModel::ModifyColumnAt(c, p) => without_misplaced(s, c.name, p),
        OperationModel::ChangeColumn(old_name, c, Some(p)) => if old_name != c.name
            && schema::has_column(s.columns, c.name) {
            s
        } else {
            without_misplaced(s, old_name, p)
        },
        _ => s,
    }
}

/// A schema without a column that has no place where it is to move.
pub open spec fn without_misplaced(
    s: SchemaModel,
    name: Seq<char>,
    p: PositionModel,
) -> SchemaModel {
    match schema::column_at(s.columns, name, 0) {
        None => s,
        Some(i) => if place(s.columns.remove(i), p) is Err {
            SchemaModel { columns: s.columns.remove(i), ..s }
        } else {
            s
        },
    }
}

fn take_out_misplaced(s: &mut TableSchema, name: &str, p: &ColumnPosition)
    ensures
        final(s)@ == without_misplaced(old(s)@, name@, p@),
{
    let ghost before = s@;
    match schema::find_column(&s.columns, name) {
        None => {},
        Some(i) => {
            let mut rest = s.columns.clone();
            assert(rest.deep_view() =~= s.columns.deep_view());
            let _gone = rest.remove(i);
            assert(rest.deep_view() =~= before.columns.remove(i as int));
            if column_insert_index(&rest, p).is_err() {
                s.columns = rest;
            }
        },
    }
}

fn leave_behind(s: &mut TableSchema, op: &AlterTableOperation)
    ensures
        final(s)@ == left_behind(old(s)@, op@),
    decreases op,
{
    match op {
        AlterTableOperation::IfExists(o) => match conditional_target_exists(s, &**o) {
            Ok(true) => leave_behind(s, &**o),
            _ => {},
        },
        AlterTableOperation::IfNotExists(o) => match conditional_target_exists(s, &**o) {
            Ok(false) => leave_behind(s, &**o),
            _ => {},
        },
        AlterTableOperation::ModifyColumnAt { column, position } => {
            take_out_misplaced(s, column.name.as_str(), position);
        },
        AlterTableOperation::ChangeColumn { old_name, column, position: Some(p) } => {
            if text::text_equal(old_name.as_str(), column.name.as_str()) || schema::find_column(
                &s.columns,
                column.name.as_str(),
            ).is_none() {
                take_out_misplaced(s, old_name.as_str(), p);
            }
        },
        _ => {},
    }
}

/// Applies an operation to a schema. Where that fails, the schema holds what the operation leaves
/// of it.
pub fn apply_alter_schema(s: &mut TableSchema, op: &AlterTableOperation) -> (r: DbResult<
    Option<(String, String)>,
>)
    ensures
        match r {
            Ok(renamed) => altered(old(s)@, op@) == Ok::<
                (SchemaModel, Option<(Seq<char>, Seq<char>)>),
                Seq<char>,
            >((final(s)@, renamed.deep_view())),
            Err(e) => final(s)@ == left_behind(old(s)@, op@) && altered(old(s)@, op@) == Err::<
                (SchemaModel, Option<(Seq<char>, Seq<char>)>),
                Seq<char>,
            >(e.message@),
        },
{
    match alter_schema(s, op) {
        Ok(pair) => {
            let (next, renamed) = pair;
            *s = next;
            Ok(renamed)
        },
        Err(m) => {
            leave_behind(s, op);
            Err(m)
        },
    }
}

} // verus!
