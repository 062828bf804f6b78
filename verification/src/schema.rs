//! Table schemas: columns, keys, indexes, triggers and stored procedures.
use crate::error;
use crate::error::{DbError, DbResult};
use crate::row;
use crate::text;
use chrono::Timelike;
use vstd::prelude::*;

verus! {

#[derive(Debug, Clone, Copy, PartialEq, Eq, Structural)]
pub enum TableEngine {
    Neko233,
    Memory,
}

impl Default for TableEngine {
    fn default() -> (r: Self)
        ensures
            r == TableEngine::Neko233,
    {
        TableEngine::Neko233
    }
}

#[derive(Debug, Clone, Copy, PartialEq, Eq, Hash, Structural)]
pub enum TriggerTiming {
    Before,
    After,
}

#[derive(Debug, Clone, Copy, PartialEq, Eq, Hash, Structural)]
pub enum TriggerEvent {
    Insert,
    Update,
    Delete,
}

#[derive(Debug, PartialEq, Eq)]
pub struct TriggerDefinition {
    pub name: String,
    pub timing: TriggerTiming,
    pub event: TriggerEvent,
    pub body: String,
    pub definer: String,
}

pub struct TriggerModel {
    pub name: Seq<char>,
    pub timing: TriggerTiming,
    pub event: TriggerEvent,
    pub body: Seq<char>,
    pub definer: Seq<char>,
}

impl View for TriggerDefinition {
    type V = TriggerModel;

    open spec fn view(&self) -> TriggerModel {
        TriggerModel {
            name: self.name@,
            timing: self.timing,
            event: self.event,
            body: self.body@,
            definer: self.definer@,
        }
    }
}

impl DeepView for TriggerDefinition {
    type V = TriggerModel;

    open spec fn deep_view(&self) -> TriggerModel {
        self@
    }
}

impl Clone for TriggerDefinition {
    fn clone(&self) -> (r: Self)
        ensures
            r@ == self@,
    {
        TriggerDefinition {
            name: self.name.clone(),
            timing: self.timing,
            event: self.event,
            body: self.body.clone(),
            definer: self.definer.clone(),
        }
    }
}

#[derive(Debug)]
pub enum DataType {
    Int,
    BigInt,
    Float,
    Double,
    Varchar(u32),
    Text,
    Blob,
    Date,
    DateTime,
    Timestamp,
    Boolean,
    Raw(String),
}

pub enum DataTypeModel {
    Int,
    BigInt,
    Float,
    Double,
    Varchar(u32),
    Text,
    Blob,
    Date,
    DateTime,
    Timestamp,
    Boolean,
    Raw(Seq<char>),
}

impl View for DataType {
    type V = DataTypeModel;

    open spec fn view(&self) -> DataTypeModel {
        match self {
            DataType::Int => DataTypeModel::Int,
            DataType::BigInt => DataTypeModel::BigInt,
            DataType::Float => DataTypeModel::Float,
            DataType::Double => DataTypeModel::Double,
            DataType::Varchar(n) => DataTypeModel::Varchar(*n),
            DataType::Text => DataTypeModel::Text,
            DataType::Blob => DataTypeModel::Blob,
            DataType::Date => DataTypeModel::Date,
            DataType::DateTime => DataTypeModel::DateTime,
            DataType::Timestamp => DataTypeModel::Timestamp,
            DataType::Boolean => DataTypeModel::Boolean,
            DataType::Raw(s) => DataTypeModel::Raw(s@),
        }
    }
}

impl Clone for DataType {
    fn clone(&self) -> (r: Self)
        ensures
            r@ == self@,
    {
        match self {
            DataType::Int => DataType::Int,
            DataType::BigInt => DataType::BigInt,
            DataType::Float => DataType::Float,
            DataType::Double => DataType::Double,
            DataType::Varchar(n) => DataType::Varchar(*n),
            DataType::Text => DataType::Text,
            DataType::Blob => DataType::Blob,
            DataType::Date => DataType::Date,
            DataType::DateTime => DataType::DateTime,
            DataType::Timestamp => DataType::Timestamp,
            DataType::Boolean => DataType::Boolean,
            DataType::Raw(s) => DataType::Raw(s.clone()),
        }
    }
}

/// Whether two data types agree.
pub fn same_data_type(a: &DataType, b: &DataType) -> (r: bool)
    ensures
        r == (a@ == b@),
{
    match (a, b) {
        (DataType::Int, DataType::Int) => true,
        (DataType::BigInt, DataType::BigInt) => true,
        (DataType::Float, DataType::Float) => true,
        (DataType::Double, DataType::Double) => true,
        (DataType::Varchar(x), DataType::Varchar(y)) => *x == *y,
        (DataType::Text, DataType::Text) => true,
        (DataType::Blob, DataType::Blob) => true,
        (DataType::Date, DataType::Date) => true,
        (DataType::DateTime, DataType::DateTime) => true,
        (DataType::Timestamp, DataType::Timestamp) => true,
        (DataType::Boolean, DataType::Boolean) => true,
        (DataType::Raw(x), DataType::Raw(y)) => text::text_equal(x.as_str(), y.as_str()),
        _ => false,
    }
}

#[derive(Debug)]
pub struct Column {
    pub name: String,
    pub data_type: DataType,
    pub nullable: bool,
    pub default: Option<String>,
    pub is_primary_key: bool,
}

pub struct ColumnModel {
    pub name: Seq<char>,
    pub data_type: DataTypeModel,
    pub nullable: bool,
    pub default: Option<Seq<char>>,
    pub is_primary_key: bool,
}

impl View for Column {
    type V = ColumnModel;

    open spec fn view(&self) -> ColumnModel {
        ColumnModel {
            name: self.name@,
            data_type: self.data_type@,
            nullable: self.nullable,
            default: self.default.deep_view(),
            is_primary_key: self.is_primary_key,
        }
    }
}

impl DeepView for Column {
    type V = ColumnModel;

    open spec fn deep_view(&self) -> ColumnModel {
        self@
    }
}

pub fn copy_option(s: &Option<String>) -> (r: Option<String>)
    ensures
        r.deep_view() == s.deep_view(),
{
    match s {
        Some(x) => Some(x.clone()),
        None => None,
    }
}

impl Clone for Column {
    fn clone(&self) -> (r: Self)
        ensures
            r@ == self@,
    {
        Column {
            name: self.name.clone(),
            data_type: self.data_type.clone(),
            nullable: self.nullable,
            default: copy_option(&self.default),
            is_primary_key: self.is_primary_key,
        }
    }
}

pub fn same_option(a: &Option<String>, b: &Option<String>) -> (r: bool)
    ensures
        r == (a.deep_view() == b.deep_view()),
{
    match (a, b) {
        (Some(x), Some(y)) => text::text_equal(x.as_str(), y.as_str()),
        (None, None) => true,
        _ => false,
    }
}

pub fn same_column(a: &Column, b: &Column) -> (r: bool)
    ensures
        r == (a@ == b@),
{
    text::text_equal(a.name.as_str(), b.name.as_str()) && same_data_type(&a.data_type, &b.data_type)
        && a.nullable == b.nullable && same_option(&a.default, &b.default) && a.is_primary_key
        == b.is_primary_key
}

#[derive(Debug)]
pub struct Index {
    pub name: String,
    pub columns: Vec<String>,
    pub unique: bool,
}

pub struct IndexModel {
    pub name: Seq<char>,
    pub columns: Seq<Seq<char>>,
    pub unique: bool,
}

impl View for Index {
    type V = IndexModel;

    open spec fn view(&self) -> IndexModel {
        IndexModel {
            name: self.name@,
            columns: self.columns.deep_view(),
            unique: self.unique,
        }
    }
}

impl DeepView for Index {
    type V = IndexModel;

    open spec fn deep_view(&self) -> IndexModel {
        self@
    }
}

impl Clone for Index {
    fn clone(&self) -> (r: Self)
        ensures
            r@ == self@,
    {
        Index {
            name: self.name.clone(),
            columns: row::copy_names(&self.columns),
            unique: self.unique,
        }
    }
}

#[derive(Debug)]
pub struct TableSchema {
    pub name: String,
    pub columns: Vec<Column>,
    pub primary_key: Option<Vec<String>>,
    pub indexes: Vec<Index>,
    pub next_page_number: u32,
    pub generation: u64,
    pub create_sql: Option<String>,
    pub engine: TableEngine,
    pub triggers: Vec<TriggerDefinition>,
}

pub struct SchemaModel {
    pub name: Seq<char>,
    pub columns: Seq<ColumnModel>,
    pub primary_key: Option<Seq<Seq<char>>>,
    pub indexes: Seq<IndexModel>,
    pub next_page_number: u32,
    pub generation: u64,
    pub create_sql: Option<Seq<char>>,
    pub engine: TableEngine,
    pub triggers: Seq<TriggerModel>,
}

impl View for TableSchema {
    type V = SchemaModel;

    open spec fn view(&self) -> SchemaModel {
        SchemaModel {
            name: self.name@,
            columns: self.columns.deep_view(),
            primary_key: self.primary_key.deep_view(),
            indexes: self.indexes.deep_view(),
            next_page_number: self.next_page_number,
            generation: self.generation,
            create_sql: self.create_sql.deep_view(),
            engine: self.engine,
            triggers: self.triggers.deep_view(),
        }
    }
}

impl DeepView for TableSchema {
    type V = SchemaModel;

    open spec fn deep_view(&self) -> SchemaModel {
        self@
    }
}

impl Clone for TableSchema {
    fn clone(&self) -> (r: Self)
        ensures
            r@ == self@,
    {
        let columns = self.columns.clone();
        assert(columns.deep_view() =~= self.columns.deep_view());
        let indexes = self.indexes.clone();
        assert(indexes.deep_view() =~= self.indexes.deep_view());
        let triggers = self.triggers.clone();
        assert(triggers.deep_view() =~= self.triggers.deep_view());
        TableSchema {
            name: self.name.clone(),
            columns: columns,
            primary_key: match &self.primary_key {
                Some(names) => Some(row::copy_names(names)),
                None => None,
            },
            indexes: indexes,
            next_page_number: self.next_page_number,
            generation: self.generation,
            create_sql: copy_option(&self.create_sql),
            engine: self.engine,
            triggers: triggers,
        }
    }
}

#[derive(Debug, Clone, Copy, PartialEq, Eq, Structural)]
pub enum ProcedureParameterMode {
    In,
    Out,
    InOut,
}

#[derive(Debug, PartialEq, Eq)]
pub struct ProcedureParameter {
    pub name: String,
    pub mode: ProcedureParameterMode,
    pub data_type: String,
}

pub struct ParameterModel {
    pub name: Seq<char>,
    pub mode: ProcedureParameterMode,
    pub data_type: Seq<char>,
}

impl View for ProcedureParameter {
    type V = ParameterModel;

    open spec fn view(&self) -> ParameterModel {
        ParameterModel { name: self.name@, mode: self.mode, data_type: self.data_type@ }
    }
}

impl DeepView for ProcedureParameter {
    type V = ParameterModel;

    open spec fn deep_view(&self) -> ParameterModel {
        self@
    }
}

impl Clone for ProcedureParameter {
    fn clone(&self) -> (r: Self)
        ensures
            r@ == self@,
    {
        ProcedureParameter {
            name: self.name.clone(),
            mode: self.mode,
            data_type: self.data_type.clone(),
        }
    }
}

#[derive(Debug, PartialEq, Eq)]
pub struct ProcedureDefinition {
    pub name: String,
    pub parameters: Vec<ProcedureParameter>,
    pub body: String,
    pub definer: String,
    pub create_sql: String,
}

pub struct ProcedureModel {
    pub name: Seq<char>,
    pub parameters: Seq<ParameterModel>,
    pub body: Seq<char>,
    pub definer: Seq<char>,
    pub create_sql: Seq<char>,
}

impl View for ProcedureDefinition {
    type V = ProcedureModel;

    open spec fn view(&self) -> ProcedureModel {
        ProcedureModel {
            name: self.name@,
            parameters: self.parameters.deep_view(),
            body: self.body@,
            definer: self.definer@,
            create_sql: self.create_sql@,
        }
    }
}

impl DeepView for ProcedureDefinition {
    type V = ProcedureModel;

    open spec fn deep_view(&self) -> ProcedureModel {
        self@
    }
}

impl Clone for ProcedureDefinition {
    fn clone(&self) -> (r: Self)
        ensures
            r@ == self@,
    {
        let parameters = self.parameters.clone();
        assert(parameters.deep_view() =~= self.parameters.deep_view());
        ProcedureDefinition {
            name: self.name.clone(),
            parameters: parameters,
            body: self.body.clone(),
            definer: self.definer.clone(),
            create_sql: self.create_sql.clone(),
        }
    }
}

#[derive(Debug, PartialEq, Eq)]
pub struct ProcedureMetadata {
    pub created: String,
    pub last_altered: String,
    pub sql_mode: String,
}

pub struct MetadataModel {
    pub created: Seq<char>,
    pub last_altered: Seq<char>,
    pub sql_mode: Seq<char>,
}

impl View for ProcedureMetadata {
    type V = MetadataModel;

    open spec fn view(&self) -> MetadataModel {
        MetadataModel {
            created: self.created@,
            last_altered: self.last_altered@,
            sql_mode: self.sql_mode@,
        }
    }
}

impl DeepView for ProcedureMetadata {
    type V = MetadataModel;

    open spec fn deep_view(&self) -> MetadataModel {
        self@
    }
}

impl Clone for ProcedureMetadata {
    fn clone(&self) -> (r: Self)
        ensures
            r@ == self@,
    {
        ProcedureMetadata {
            created: self.created.clone(),
            last_altered: self.last_altered.clone(),
            sql_mode: self.sql_mode.clone(),
        }
    }
}

/// `chrono::Local::now`, formatted to the second, and the nanoseconds within the second: below two
/// thousand million, since a leap second counts on beyond the first. What time it is depends on the
/// clock.
#[verifier::external_body]
pub(crate) fn local_now() -> (r: Moment)
    ensures
        r.nanos < 2_000_000_000,
{
    let now = chrono::Local::now();
    Moment {
        seconds: now.format("%Y-%m-%d %H:%M:%S").to_string(),
        nanos: now.nanosecond(),
    }
}

/// A moment of local time: its text to the second, and the nanoseconds within the second.
#[derive(Debug)]
pub struct Moment {
    pub seconds: String,
    pub nanos: u32,
}

pub struct MomentModel {
    pub seconds: Seq<char>,
    pub nanos: u32,
}

impl View for Moment {
    type V = MomentModel;

    open spec fn view(&self) -> MomentModel {
        MomentModel { seconds: self.seconds@, nanos: self.nanos }
    }
}

impl Moment {
    /// The present moment.
    pub fn now() -> (r: Moment)
        ensures
            r@.nanos < 2_000_000_000,
    {
        local_now()
    }
}

/// The metadata of a procedure created at a moment, without an SQL mode.
pub open spec fn created_metadata(m: MomentModel) -> MetadataModel {
    MetadataModel { created: m.seconds, last_altered: m.seconds, sql_mode: Seq::empty() }
}

/// Metadata after a change at a moment, without an SQL mode.
pub open spec fn altered_metadata(known: MetadataModel, m: MomentModel) -> MetadataModel {
    MetadataModel { created: known.created, last_altered: m.seconds, sql_mode: Seq::empty() }
}

impl ProcedureMetadata {
    /// The metadata of a procedure created at a moment.
    pub fn created_at(moment: &Moment, sql_mode: String) -> (r: Self)
        ensures
            r@ == (MetadataModel {
                created: moment@.seconds,
                last_altered: moment@.seconds,
                sql_mode: sql_mode@,
            }),
    {
        ProcedureMetadata {
            created: moment.seconds.clone(),
            last_altered: moment.seconds.clone(),
            sql_mode: sql_mode,
        }
    }

    /// The metadata after a change at a moment.
    pub fn altered_at(&self, moment: &Moment, sql_mode: String) -> (r: Self)
        ensures
            r@ == (MetadataModel {
                created: self@.created,
                last_altered: moment@.seconds,
                sql_mode: sql_mode@,
            }),
    {
        ProcedureMetadata {
            created: self.created.clone(),
            last_altered: moment.seconds.clone(),
            sql_mode: sql_mode,
        }
    }

    /// The metadata of a procedure created now: both times are the same moment.
    pub fn new(sql_mode: String) -> (r: Self)
        ensures
            r@.created == r@.last_altered,
            r@.sql_mode == sql_mode@,
    {
        let moment = local_now();
        ProcedureMetadata::created_at(&moment, sql_mode)
    }

    /// The metadata after a change now: the time of creation stays.
    pub fn altered(&self, sql_mode: String) -> (r: Self)
        ensures
            r@.created == self@.created,
            r@.sql_mode == sql_mode@,
    {
        let moment = local_now();
        self.altered_at(&moment, sql_mode)
    }
}

// ---------------------------------------------------------------------------------------------
// Columns and keys
// ---------------------------------------------------------------------------------------------
/// The first column with exactly that name.
pub open spec fn column_at(columns: Seq<ColumnModel>, name: Seq<char>, from: int) -> Option<int>
    decreases columns.len() - from,
{
    if from < 0 || from >= columns.len() {
        None
    } else if columns[from].name == name {
        Some(from)
    } else {
        column_at(columns, name, from + 1)
    }
}

pub open spec fn has_column(columns: Seq<ColumnModel>, name: Seq<char>) -> bool {
    column_at(columns, name, 0) is Some
}

pub fn find_column(columns: &Vec<Column>, name: &str) -> (r: Option<usize>)
    ensures
        r is Some == column_at(columns.deep_view(), name@, 0) is Some,
        r matches Some(i) ==> i < columns@.len() && column_at(columns.deep_view(), name@, 0)
            == Some(i as int),
{
    let mut i: usize = 0;
    while i < columns.len()
        invariant
            i <= columns@.len(),
            column_at(columns.deep_view(), name@, i as int) == column_at(
                columns.deep_view(),
                name@,
                0,
            ),
        decreases columns@.len() - i,
    {
        if text::text_equal(columns[i].name.as_str(), name) {
            return Some(i);
        }
        i += 1;
    }
    None
}

/// The first column whose name agrees up to case.
pub open spec fn column_fold_at(columns: Seq<ColumnModel>, name: Seq<char>, from: int) -> Option<
    int,
>
    decreases columns.len() - from,
{
    if from < 0 || from >= columns.len() {
        None
    } else if text::same_fold(columns[from].name, name) {
        Some(from)
    } else {
        column_fold_at(columns, name, from + 1)
    }
}

pub fn find_column_fold(columns: &Vec<Column>, name: &str) -> (r: Option<usize>)
    ensures
        r is Some == column_fold_at(columns.deep_view(), name@, 0) is Some,
        r matches Some(i) ==> i < columns@.len() && column_fold_at(columns.deep_view(), name@, 0)
            == Some(i as int),
{
    let mut i: usize = 0;
    while i < columns.len()
        invariant
            i <= columns@.len(),
            column_fold_at(columns.deep_view(), name@, i as int) == column_fold_at(
                columns.deep_view(),
                name@,
                0,
            ),
        decreases columns@.len() - i,
    {
        if text::eq_fold(columns[i].name.as_str(), name) {
            return Some(i);
        }
        i += 1;
    }
    None
}

pub open spec fn unknown_column(name: Seq<char>) -> Seq<char> {
    "Unknown column '"@ + name + "'"@
}

pub fn unknown_column_error(name: &str) -> (r: DbError)
    ensures
        r.message@ == unknown_column(name@),
{
    DbError::new(error::cat3("Unknown column '", name, "'"))
}

pub fn validate_column_exists(schema: &TableSchema, column: &str) -> (r: DbResult<()>)
    ensures
        r is Ok <==> has_column(schema@.columns, column@),
        r matches Err(e) ==> e.message@ == unknown_column(column@),
{
    match find_column(&schema.columns, column) {
        Some(_) => Ok(()),
        None => Err(unknown_column_error(column)),
    }
}

/// The names of the columns marked as primary key, in order.
pub open spec fn marked_names(columns: Seq<ColumnModel>) -> Seq<Seq<char>>
    decreases columns.len(),
{
    if columns.len() == 0 {
        Seq::empty()
    } else {
        let rest = marked_names(columns.drop_last());
        if columns.last().is_primary_key {
            rest.push(columns.last().name)
        } else {
            rest
        }
    }
}

pub open spec fn primary_key(schema: SchemaModel) -> Seq<Seq<char>> {
    match schema.primary_key {
        Some(names) => names,
        None => marked_names(schema.columns),
    }
}

pub fn primary_key_columns(schema: &TableSchema) -> (r: Vec<String>)
    ensures
        r.deep_view() == primary_key(schema@),
{
    match &schema.primary_key {
        Some(names) => row::copy_names(names),
        None => {
            let mut out: Vec<String> = Vec::new();
            let mut i: usize = 0;
            let ghost columns = schema.columns.deep_view();
            assert(marked_names(columns.take(0)) =~= Seq::empty());
            while i < schema.columns.len()
                invariant
                    i <= schema.columns@.len(),
                    columns == schema.columns.deep_view(),
                    out.deep_view() == marked_names(columns.take(i as int)),
                decreases schema.columns@.len() - i,
            {
                assert(columns.take(i + 1).drop_last() =~= columns.take(i as int));
                let ghost before = out.deep_view();
                if schema.columns[i].is_primary_key {
                    out.push(schema.columns[i].name.clone());
                    assert(out.deep_view() =~= before.push(columns[i as int].name));
                }
                i += 1;
            }
            assert(columns.take(i as int) =~= columns);
            out
        },
    }
}

/// A key that no two rows may share.
pub struct KeyModel {
    pub name: Seq<char>,
    pub columns: Seq<Seq<char>>,
    pub nullable: bool,
}

#[derive(Debug)]
pub struct KeyConstraint {
    pub name: String,
    pub columns: Vec<String>,
    pub nullable: bool,
}

impl View for KeyConstraint {
    type V = KeyModel;

    open spec fn view(&self) -> KeyModel {
        KeyModel {
            name: self.name@,
            columns: self.columns.deep_view(),
            nullable: self.nullable,
        }
    }
}

impl DeepView for KeyConstraint {
    type V = KeyModel;

    open spec fn deep_view(&self) -> KeyModel {
        self@
    }
}

/// The unique indexes as keys, in order.
pub open spec fn unique_keys(indexes: Seq<IndexModel>) -> Seq<KeyModel>
    decreases indexes.len(),
{
    if indexes.len() == 0 {
        Seq::empty()
    } else {
        let rest = unique_keys(indexes.drop_last());
        if indexes.last().unique {
            rest.push(
                KeyModel {
                    name: indexes.last().name,
                    columns: indexes.last().columns,
                    nullable: true,
                },
            )
        } else {
            rest
        }
    }
}

/// The primary key, where there is one, and the unique indexes.
pub open spec fn keys(schema: SchemaModel) -> Seq<KeyModel> {
    let primary = primary_key(schema);
    let first = if primary.len() == 0 {
        Seq::empty()
    } else {
        seq![KeyModel { name: "PRIMARY"@, columns: primary, nullable: false }]
    };
    first + unique_keys(schema.indexes)
}

pub fn key_constraints(schema: &TableSchema) -> (r: Vec<KeyConstraint>)
    ensures
        r.deep_view() == keys(schema@),
{
    let mut out: Vec<KeyConstraint> = Vec::new();
    let primary = primary_key_columns(schema);
    if primary.len() > 0 {
        let key = KeyConstraint {
            name: text::copy_text("PRIMARY"),
            columns: primary,
            nullable: false,
        };
        out.push(key);
    }
    let ghost first = out.deep_view();
    assert(first =~= (if primary_key(schema@).len() == 0 {
        Seq::empty()
    } else {
        seq![
            KeyModel { name: "PRIMARY"@, columns: primary_key(schema@), nullable: false },
        ]
    }));
    let ghost indexes = schema.indexes.deep_view();
    let mut i: usize = 0;
    assert(first + unique_keys(indexes.take(0)) =~= first);
    while i < schema.indexes.len()
        invariant
            i <= schema.indexes@.len(),
            indexes == schema.indexes.deep_view(),
            out.deep_view() == first + unique_keys(indexes.take(i as int)),
        decreases schema.indexes@.len() - i,
    {
        assert(indexes.take(i + 1).drop_last() =~= indexes.take(i as int));
        let ghost before = out.deep_view();
        if schema.indexes[i].unique {
            let key = KeyConstraint {
                name: schema.indexes[i].name.clone(),
                columns: row::copy_names(&schema.indexes[i].columns),
                nullable: true,
            };
            let ghost shown = key@;
            out.push(key);
            assert(out.deep_view() =~= before.push(shown));
            assert(before.push(shown) =~= first + unique_keys(indexes.take(i as int)).push(shown));
        }
        i += 1;
    }
    assert(indexes.take(i as int) =~= indexes);
    out
}

} // verus!
