//! Row values: keys, defaults and assignments.
use crate::checks;
use crate::codec;
use crate::decimals;
use crate::error;
use crate::error::{DbError, DbResult};
use crate::num;
use crate::row;
use crate::row::{Row, RowModel};
use crate::schema;
use crate::schema::{
    Column, ColumnModel, DataType, DataTypeModel, Moment, MomentModel, SchemaModel, TableSchema,
};
use crate::search;
use crate::sqltext;
use crate::text;
use vstd::prelude::*;

verus! {

// ---------------------------------------------------------------------------------------------
// Keys
// ---------------------------------------------------------------------------------------------
/// The key columns' values from the `at`-th on, each behind its length in four bytes.
pub open spec fn key_from(r: RowModel, columns: Seq<Seq<char>>, at: int) -> Option<Seq<u8>>
    decreases columns.len() - at,
{
    if at < 0 || at >= columns.len() {
        Some(Seq::empty())
    } else {
        match (r.present(columns[at]), key_from(r, columns, at + 1)) {
            (Some(value), Some(rest)) => Some(codec::le(value.len(), 4) + value + rest),
            _ => None,
        }
    }
}

/// A row's key: none where there are no key columns, or where one is missing or NULL.
pub open spec fn key(r: RowModel, columns: Seq<Seq<char>>) -> Option<Seq<u8>> {
    if columns.len() == 0 {
        None
    } else {
        key_from(r, columns, 0)
    }
}

pub fn encode_key(r: &Row, columns: &Vec<String>) -> (k: Option<Vec<u8>>)
    ensures
        k is Some == key(r@, columns.deep_view()) is Some,
        k matches Some(b) ==> key(r@, columns.deep_view()) == Some(b@),
{
    if columns.len() == 0 {
        return None;
    }
    let ghost names = columns.deep_view();
    let mut out: Vec<u8> = Vec::new();
    let mut i: usize = 0;
    proof {
        if let Some(rest) = key_from(r@, names, 0) {
            assert(out@ + rest =~= rest);
        }
    }
    while i < columns.len()
        invariant
            i <= columns@.len(),
            names == columns.deep_view(),
            names.len() > 0,
            key(r@, names) == (match key_from(r@, names, i as int) {
                Some(rest) => Some(out@ + rest),
                None => None,
            }),
        decreases columns@.len() - i,
    {
        assert(names[i as int] == columns@[i as int]@);
        if r.is_null(columns[i].as_str()) {
            return None;
        }
        match r.get(columns[i].as_str()) {
            None => {
                return None;
            },
            Some(value) => {
                let ghost before = out@;
                codec::put_le(&mut out, value.len() as u64, 4);
                out.extend_from_slice(value);
                proof {
                    if let Some(rest) = key_from(r@, names, i + 1) {
                        assert(before + (codec::le(value@.len(), 4) + value@ + rest) =~= out@
                            + rest);
                    }
                }
            },
        }
        i += 1;
    }
    assert(out@ + Seq::<u8>::empty() =~= out@);
    Some(out)
}

/// Two rows with the same key agree on every key column.
pub proof fn key_determines_values(a: RowModel, b: RowModel, columns: Seq<Seq<char>>, at: int)
    requires
        0 <= at,
        key_from(a, columns, at) is Some,
        key_from(a, columns, at) == key_from(b, columns, at),
        forall|i: int|
            at <= i < columns.len() ==> (a.present(#[trigger] columns[i]) matches Some(v)
                ==> v.len() < codec::pow256(4)),
        forall|i: int|
            at <= i < columns.len() ==> (b.present(#[trigger] columns[i]) matches Some(v)
                ==> v.len() < codec::pow256(4)),
    ensures
        forall|i: int|
            at <= i < columns.len() ==> a.present(#[trigger] columns[i]) == b.present(columns[i]),
    decreases columns.len() - at,
{
    if at < columns.len() {
        let x = a.present(columns[at])->0;
        let y = b.present(columns[at])->0;
        let p = key_from(a, columns, at + 1)->0;
        let q = key_from(b, columns, at + 1)->0;
        let k = key_from(a, columns, at)->0;
        codec::le_len(x.len(), 4);
        codec::le_len(y.len(), 4);
        codec::from_le_le(x.len(), 4);
        codec::from_le_le(y.len(), 4);
        assert(k.subrange(0, 4) =~= codec::le(x.len(), 4));
        assert(k.subrange(0, 4) =~= codec::le(y.len(), 4));
        assert(x.len() == y.len());
        assert(k.subrange(4, (4 + x.len()) as int) =~= x);
        assert(k.subrange(4, (4 + x.len()) as int) =~= y);
        assert(k.subrange((4 + x.len()) as int, k.len() as int) =~= p);
        assert(k.subrange((4 + x.len()) as int, k.len() as int) =~= q);
        key_determines_values(a, b, columns, at + 1);
    }
}

// ---------------------------------------------------------------------------------------------
// Defaults
// ---------------------------------------------------------------------------------------------
/// The first value at or after `at` that belongs to no column.
pub open spec fn stray_from(
    values: Seq<(Seq<char>, Seq<u8>)>,
    columns: Seq<ColumnModel>,
    at: int,
) -> Option<Seq<char>>
    decreases values.len() - at,
{
    if at < 0 || at >= values.len() {
        None
    } else if !schema::has_column(columns, values[at].0) {
        Some(values[at].0)
    } else {
        stray_from(values, columns, at + 1)
    }
}

/// A row with one column filled in where it is missing.
pub open spec fn filled_column(
    r: RowModel,
    c: ColumnModel,
    auto: Option<Seq<char>>,
    moment: MomentModel,
) -> Result<RowModel, Seq<char>> {
    if !r.contains(c.name) {
        if auto == Some(c.name) {
            Ok(r)
        } else {
            match c.default {
                Some(default) => if text::same_fold(default, "NULL"@) {
                    Ok(r.pushed_null(c.name))
                } else {
                    match sqltext::timestamp_bytes(default, moment) {
                        Some(bytes) => Ok(r.pushed(c.name, bytes)),
                        None => Ok(r.pushed(c.name, text::bytes_of(default))),
                    }
                },
                None => if c.nullable {
                    Ok(r.pushed_null(c.name))
                } else {
                    Err("Field '"@ + c.name + "' doesn't have a default value"@)
                },
            }
        }
    } else if r.is_null(c.name) && !c.nullable {
        Err("Column '"@ + c.name + "' cannot be null"@)
    } else {
        Ok(r)
    }
}

pub open spec fn filled_from(
    r: RowModel,
    columns: Seq<ColumnModel>,
    auto: Option<Seq<char>>,
    moment: MomentModel,
    at: int,
) -> Result<RowModel, Seq<char>>
    decreases columns.len() - at,
{
    if at < 0 || at >= columns.len() {
        Ok(r)
    } else {
        match filled_column(r, columns[at], auto, moment) {
            Err(m) => Err(m),
            Ok(next) => filled_from(next, columns, auto, moment, at + 1),
        }
    }
}

/// A row as its table stores it: no stray values, every column filled in, every check passed.
pub open spec fn materialized(r: RowModel, s: SchemaModel, moment: MomentModel) -> Result<
    RowModel,
    Seq<char>,
> {
    match stray_from(r.values, s.columns, 0) {
        Some(name) => Err(schema::unknown_column(name)),
        None => match filled_from(r, s.columns, sqltext::auto_increment(s), moment, 0) {
            Err(m) => Err(m),
            Ok(full) => match checks::checked(full, s) {
                Err(m) => Err(m),
                Ok(_) => Ok(full),
            },
        },
    }
}

fn fill_column(r: Row, c: &Column, auto: &Option<String>, moment: &Moment) -> (res: DbResult<Row>)
    ensures
        error::outcome(res) == filled_column(r@, c@, auto.deep_view(), moment@),
{
    let mut out = r;
    if !out.contains(c.name.as_str()) {
        let numbered = match auto {
            Some(a) => text::text_equal(a.as_str(), c.name.as_str()),
            None => false,
        };
        if numbered {
            return Ok(out);
        }
        match &c.default {
            Some(default) => {
                if text::eq_fold(default.as_str(), "NULL") {
                    out.push_null(c.name.as_str());
                } else {
                    match sqltext::current_timestamp_at(default.as_str(), moment) {
                        Some(bytes) => {
                            out.push(c.name.as_str(), bytes);
                        },
                        None => {
                            out.push(c.name.as_str(), text::text_bytes(default.as_str()));
                        },
                    }
                }
                Ok(out)
            },
            None => {
                if c.nullable {
                    out.push_null(c.name.as_str());
                    Ok(out)
                } else {
                    Err(
                        DbError::new(
                            error::cat3(
                                "Field '",
                                c.name.as_str(),
                                "' doesn't have a default value",
                            ),
                        ),
                    )
                }
            },
        }
    } else if out.is_null(c.name.as_str()) && !c.nullable {
        Err(DbError::new(error::cat3("Column '", c.name.as_str(), "' cannot be null")))
    } else {
        Ok(out)
    }
}

/// A row as its table stores it at a moment.
#[verifier::loop_isolation(false)]
pub fn materialize_row(r: Row, schema: &TableSchema, moment: &Moment) -> (res: DbResult<Row>)
    ensures
        error::outcome(res) == materialized(r@, schema@, moment@),
{
    let ghost model = r@;
    let ghost columns = schema@.columns;
    let mut i: usize = 0;
    while i < r.count()
        invariant
            i <= r@.values.len(),
            r@ == model,
            columns == schema.columns.deep_view(),
            stray_from(model.values, columns, i as int) == stray_from(model.values, columns, 0),
            columns == schema@.columns,
        decreases r@.values.len() - i,
    {
        match schema::find_column(&schema.columns, r.name_at(i)) {
            None => {
                return Err(schema::unknown_column_error(r.name_at(i)));
            },
            Some(_) => {},
        }
        i += 1;
    }
    let auto = sqltext::auto_increment_column(schema);
    let mut out = r;
    let mut k: usize = 0;
    while k < schema.columns.len()
        invariant
            k <= schema.columns@.len(),
            columns == schema.columns.deep_view(),
            columns == schema@.columns,
            stray_from(model.values, columns, 0) is None,
            auto.deep_view() == sqltext::auto_increment(schema@),
            filled_from(out@, columns, auto.deep_view(), moment@, k as int) == filled_from(
                model,
                columns,
                auto.deep_view(),
                moment@,
                0,
            ),
        decreases schema.columns@.len() - k,
    {
        match fill_column(out, &schema.columns[k], &auto, moment) {
            Err(m) => {
                return Err(m);
            },
            Ok(next) => {
                out = next;
            },
        }
        k += 1;
    }
    match checks::validate_check_constraints(&out, schema) {
        Err(m) => Err(m),
        Ok(_) => Ok(out),
    }
}

// ---------------------------------------------------------------------------------------------
// Assignments
// ---------------------------------------------------------------------------------------------
#[derive(Debug, Clone, Copy, PartialEq, Eq, Structural)]
pub enum NumericOperator {
    Add,
    Subtract,
    Multiply,
    Divide,
}

#[derive(Debug, PartialEq, Eq)]
pub enum UpdateValueExpression {
    Literal(Option<Vec<u8>>),
    Column(String),
    Default(String),
    Numeric { source_column: String, operator: NumericOperator, operand: Vec<u8> },
}

pub enum UpdateModel {
    Literal(Option<Seq<u8>>),
    Column(Seq<char>),
    Default(Seq<char>),
    Numeric { source_column: Seq<char>, operator: NumericOperator, operand: Seq<u8> },
}

pub open spec fn bytes_option(b: Option<Vec<u8>>) -> Option<Seq<u8>> {
    match b {
        Some(v) => Some(v@),
        None => None,
    }
}

pub fn copy_bytes_option(b: &Option<Vec<u8>>) -> (r: Option<Vec<u8>>)
    ensures
        bytes_option(r) == bytes_option(*b),
{
    match b {
        Some(v) => Some(text::copy_bytes(v.as_slice())),
        None => None,
    }
}

impl View for UpdateValueExpression {
    type V = UpdateModel;

    open spec fn view(&self) -> UpdateModel {
        match self {
            UpdateValueExpression::Literal(b) => UpdateModel::Literal(bytes_option(*b)),
            UpdateValueExpression::Column(s) => UpdateModel::Column(s@),
            UpdateValueExpression::Default(s) => UpdateModel::Default(s@),
            UpdateValueExpression::Numeric { source_column, operator, operand } =>
                UpdateModel::Numeric {
                source_column: source_column@,
                operator: *operator,
                operand: operand@,
            },
        }
    }
}

impl Clone for UpdateValueExpression {
    fn clone(&self) -> (r: Self)
        ensures
            r@ == self@,
    {
        match self {
            UpdateValueExpression::Literal(b) => UpdateValueExpression::Literal(
                copy_bytes_option(b),
            ),
            UpdateValueExpression::Column(s) => UpdateValueExpression::Column(s.clone()),
            UpdateValueExpression::Default(s) => UpdateValueExpression::Default(s.clone()),
            UpdateValueExpression::Numeric { source_column, operator, operand } =>
                UpdateValueExpression::Numeric {
                source_column: source_column.clone(),
                operator: *operator,
                operand: text::copy_bytes(operand.as_slice()),
            },
        }
    }
}

#[derive(Debug, PartialEq, Eq)]
pub struct ExpressionAssignment {
    pub target_column: String,
    pub value: UpdateValueExpression,
}

pub struct AssignmentModel {
    pub target_column: Seq<char>,
    pub value: UpdateModel,
}

impl View for ExpressionAssignment {
    type V = AssignmentModel;

    open spec fn view(&self) -> AssignmentModel {
        AssignmentModel { target_column: self.target_column@, value: self.value@ }
    }
}

impl DeepView for ExpressionAssignment {
    type V = AssignmentModel;

    open spec fn deep_view(&self) -> AssignmentModel {
        self@
    }
}

impl Clone for ExpressionAssignment {
    fn clone(&self) -> (r: Self)
        ensures
            r@ == self@,
    {
        ExpressionAssignment {
            target_column: self.target_column.clone(),
            value: self.value.clone(),
        }
    }
}

/// Whether a raw type is DECIMAL or NUMERIC with a precision.
pub open spec fn is_decimal_type(raw: Seq<char>) -> bool {
    let u = text::upper(text::trim(raw));
    search::starts_with(u, "DECIMAL("@) || search::starts_with(u, "NUMERIC("@)
}

pub fn decimal_type(raw: &str) -> (r: bool)
    ensures
        r == is_decimal_type(raw@),
{
    let t = text::trim_text(raw);
    let u = text::to_upper(t.as_str());
    search::text_starts_with(u.as_str(), "DECIMAL(") || search::text_starts_with(
        u.as_str(),
        "NUMERIC(",
    )
}

pub open spec fn is_numeric(t: DataTypeModel) -> bool {
    match t {
        DataTypeModel::Int => true,
        DataTypeModel::BigInt => true,
        DataTypeModel::Float => true,
        DataTypeModel::Double => true,
        DataTypeModel::Boolean => true,
        DataTypeModel::Raw(raw) => is_decimal_type(raw),
        _ => false,
    }
}

pub fn is_numeric_data_type(t: &DataType) -> (r: bool)
    ensures
        r == is_numeric(t@),
{
    match t {
        DataType::Int => true,
        DataType::BigInt => true,
        DataType::Float => true,
        DataType::Double => true,
        DataType::Boolean => true,
        DataType::Raw(raw) => decimal_type(raw.as_str()),
        _ => false,
    }
}

/// The scale that a type's second argument gives.
pub open spec fn type_scale(raw: Seq<char>) -> Option<nat> {
    match search::find_char_from(raw, '(', 0) {
        None => None,
        Some(open) => match search::find_char_from(raw, ')', open + 1) {
            None => None,
            Some(close) => {
                let parts = search::split_char(raw.subrange(open + 1, close), ',');
                if parts.len() > 1 {
                    num::parsed(text::trim(parts[1]), u32::MAX as nat)
                } else {
                    None
                }
            },
        },
    }
}

pub fn decimal_type_scale(raw: &str) -> (r: Option<u32>)
    ensures
        r is Some == type_scale(raw@) is Some,
        r matches Some(n) ==> type_scale(raw@) == Some(n as nat),
{
    let c = text::chars_of(raw);
    match search::find_char(&c, '(', 0) {
        None => None,
        Some(open) => match search::find_char(&c, ')', open + 1) {
            None => None,
            Some(close) => {
                let inner = text::slice_text(&c, open + 1, close);
                let parts = search::split_on(inner.as_str(), ',');
                if parts.len() > 1 {
                    assert(parts.deep_view()[1] == parts@[1]@);
                    let t = text::trim_text(parts[1].as_str());
                    match num::parse_u64(t.as_str(), u32::MAX as u64) {
                        Some(n) => Some(n as u32),
                        None => None,
                    }
                } else {
                    None
                }
            },
        },
    }
}

/// A number as a column of some type stores it. One that the scale of its type brings to more
/// places than a text can show is refused.
pub open spec fn formatted(d: u128, t: DataTypeModel) -> Result<Seq<char>, Seq<char>> {
    match t {
        DataTypeModel::Int | DataTypeModel::BigInt | DataTypeModel::Boolean => Ok(
            decimals::plain(decimals::normal(decimals::round_half_up(d, 0))),
        ),
        DataTypeModel::Float | DataTypeModel::Double => Ok(decimals::plain(decimals::normal(d))),
        DataTypeModel::Raw(raw) => if is_decimal_type(raw) {
            let places = match type_scale(raw) {
                Some(n) => n as u32,
                None => 0u32,
            };
            let whole = decimals::round_half_up(d, places);
            if decimals::extended(whole, places).1 > decimals::MAX_TEXT_PLACES {
                Err("Data type '"@ + raw + "' has too many decimal places"@)
            } else {
                Ok(decimals::extended_text(whole, places))
            }
        } else {
            Err("Data type '"@ + raw + "' is not numeric"@)
        },
        _ => Err("Column data type is not numeric"@),
    }
}

pub fn format_numeric_assignment(d: u128, t: &DataType) -> (r: DbResult<String>)
    requires
        decimals::valid(d),
    ensures
        error::outcome(r) == formatted(d, t@),
{
    match t {
        DataType::Int | DataType::BigInt | DataType::Boolean => {
            let rounded = decimals::rounded(d, 0);
            let normal = decimals::normalized(rounded);
            Ok(decimals::decimal_text(normal))
        },
        DataType::Float | DataType::Double => {
            let normal = decimals::normalized(d);
            Ok(decimals::decimal_text(normal))
        },
        DataType::Raw(raw) => {
            if decimal_type(raw.as_str()) {
                let places: u32 = match decimal_type_scale(raw.as_str()) {
                    Some(n) => n,
                    None => 0,
                };
                let rounded = decimals::rounded(d, places);
                proof {
                    decimals::rounding_keeps_places(d, places);
                }
                if decimals::extended_places(rounded, places) > decimals::MAX_TEXT_PLACES {
                    return Err(
                        DbError::new(
                            error::cat3(
                                "Data type '",
                                raw.as_str(),
                                "' has too many decimal places",
                            ),
                        ),
                    );
                }
                Ok(decimals::rescaled_text(rounded, places))
            } else {
                Err(DbError::new(error::cat3("Data type '", raw.as_str(), "' is not numeric")))
            }
        },
        _ => Err(DbError::of("Column data type is not numeric")),
    }
}

/// The value that DEFAULT stands for in a column.
pub open spec fn default_value(s: SchemaModel, name: Seq<char>, moment: MomentModel) -> Result<
    Option<Seq<u8>>,
    Seq<char>,
> {
    match schema::column_fold_at(s.columns, name, 0) {
        None => Err(schema::unknown_column(name)),
        Some(i) => {
            let c = s.columns[i];
            if sqltext::auto_increment(s) matches Some(a) && text::same_fold(a, c.name) {
                Ok(Some(text::bytes_of("0"@)))
            } else {
                match c.default {
                    Some(default) => if text::same_fold(default, "NULL"@) {
                        Ok(None)
                    } else if sqltext::is_current_timestamp(default) {
                        Ok(sqltext::timestamp_bytes(default, moment))
                    } else {
                        Ok(Some(text::bytes_of(default)))
                    },
                    None => if c.nullable {
                        Ok(None)
                    } else {
                        Err("Field '"@ + c.name + "' doesn't have a default value"@)
                    },
                }
            }
        },
    }
}

/// An optional value's outcome by bytes and message.
pub open spec fn value_outcome(r: DbResult<Option<Vec<u8>>>) -> Result<Option<Seq<u8>>, Seq<char>> {
    match r {
        Ok(b) => Ok(bytes_option(b)),
        Err(e) => Err(e.message@),
    }
}

pub fn column_default_value(schema: &TableSchema, name: &str, moment: &Moment) -> (r: DbResult<
    Option<Vec<u8>>,
>)
    ensures
        value_outcome(r) == default_value(schema@, name@, moment@),
{
    match schema::find_column_fold(&schema.columns, name) {
        None => Err(schema::unknown_column_error(name)),
        Some(i) => {
            let c = &schema.columns[i];
            assert(schema@.columns[i as int] == c@);
            let auto = sqltext::auto_increment_column(schema);
            let numbered = match &auto {
                Some(a) => text::eq_fold(a.as_str(), c.name.as_str()),
                None => false,
            };
            if numbered {
                return Ok(Some(text::text_bytes("0")));
            }
            match &c.default {
                Some(default) => {
                    if text::eq_fold(default.as_str(), "NULL") {
                        Ok(None)
                    } else if sqltext::is_current_timestamp_default(default.as_str()) {
                        Ok(sqltext::current_timestamp_at(default.as_str(), moment))
                    } else {
                        Ok(Some(text::text_bytes(default.as_str())))
                    }
                },
                None => {
                    if c.nullable {
                        Ok(None)
                    } else {
                        Err(
                            DbError::new(
                                error::cat3(
                                    "Field '",
                                    c.name.as_str(),
                                    "' doesn't have a default value",
                                ),
                            ),
                        )
                    }
                },
            }
        },
    }
}

pub open spec fn computed(op: NumericOperator, a: u128, b: u128) -> Option<u128> {
    match op {
        NumericOperator::Add => decimals::decimal_sum(a, b),
        NumericOperator::Subtract => decimals::decimal_difference(a, b),
        NumericOperator::Multiply => decimals::decimal_product(a, b),
        NumericOperator::Divide => decimals::decimal_quotient(a, b),
    }
}

/// The bytes of a computed number in a column of some type, given what the computation returned.
pub open spec fn stored_number(result: Option<u128>, t: DataTypeModel) -> Result<
    Option<Seq<u8>>,
    Seq<char>,
> {
    match result {
        None => Err("Numeric value out of range"@),
        Some(d) => match formatted(d, t) {
            Err(m) => Err(m),
            Ok(s) => Ok(Some(text::bytes_of(s))),
        },
    }
}

pub fn store_number(result: Option<u128>, t: &DataType) -> (r: DbResult<Option<Vec<u8>>>)
    requires
        result matches Some(d) ==> decimals::valid(d),
    ensures
        value_outcome(r) == stored_number(result, t@),
{
    match result {
        None => Err(DbError::of("Numeric value out of range")),
        Some(d) => match format_numeric_assignment(d, t) {
            Err(m) => Err(m),
            Ok(s) => Ok(Some(text::text_bytes(s.as_str()))),
        },
    }
}

/// The value that an expression gives for a column of a row.
pub open spec fn evaluated(
    r: RowModel,
    s: SchemaModel,
    target: ColumnModel,
    e: UpdateModel,
    moment: MomentModel,
) -> Result<Option<Seq<u8>>, Seq<char>> {
    match e {
        UpdateModel::Literal(value) => Ok(value),
        UpdateModel::Column(source) => Ok(r.present(source)),
        UpdateModel::Default(source) => default_value(s, source, moment),
        UpdateModel::Numeric { source_column, operator, operand } => match r.present(
            source_column,
        ) {
            None => Ok(None),
            Some(value) => match (checks::decimal_read(value), checks::decimal_read(operand)) {
                (Err(e), _) => Err(e),
                (Ok(_), Err(e)) => Err(e),
                (Ok(a), Ok(b)) => if operator == NumericOperator::Divide && decimals::mantissa(
                    b,
                ) == 0 {
                    Err("Division by 0"@)
                } else {
                    stored_number(computed(operator, a, b), target.data_type)
                },
            },
        },
    }
}

pub fn evaluate_update_value(
    r: &Row,
    schema: &TableSchema,
    target: &Column,
    e: &UpdateValueExpression,
    moment: &Moment,
) -> (res: DbResult<Option<Vec<u8>>>)
    ensures
        value_outcome(res) == evaluated(r@, schema@, target@, e@, moment@),
{
    match e {
        UpdateValueExpression::Literal(value) => Ok(copy_bytes_option(value)),
        UpdateValueExpression::Column(source) => {
            if r.is_null(source.as_str()) {
                return Ok(None);
            }
            match r.get(source.as_str()) {
                None => Ok(None),
                Some(value) => Ok(Some(text::copy_bytes(value))),
            }
        },
        UpdateValueExpression::Default(source) => column_default_value(
            schema,
            source.as_str(),
            moment,
        ),
        UpdateValueExpression::Numeric { source_column, operator, operand } => {
            if r.is_null(source_column.as_str()) {
                return Ok(None);
            }
            match r.get(source_column.as_str()) {
                None => Ok(None),
                Some(value) => {
                    let a = checks::read_decimal(value);
                    let b = checks::read_decimal(operand.as_slice());
                    match (a, b) {
                        (Err(e), _) => Err(e),
                        (Ok(_), Err(e)) => Err(e),
                        (Ok(x), Ok(y)) => {
                            let result = match operator {
                                NumericOperator::Add => decimals::sum(x, y),
                                NumericOperator::Subtract => decimals::difference(x, y),
                                NumericOperator::Multiply => decimals::product(x, y),
                                NumericOperator::Divide => {
                                    if decimals::is_zero(y) {
                                        return Err(DbError::of("Division by 0"));
                                    }
                                    decimals::quotient(x, y)
                                },
                            };
                            store_number(result, &target.data_type)
                        },
                    }
                },
            }
        },
    }
}

/// A row after one assignment.
pub open spec fn assigned_one(
    r: RowModel,
    s: SchemaModel,
    a: AssignmentModel,
    moment: MomentModel,
) -> Result<RowModel, Seq<char>> {
    match schema::column_at(s.columns, a.target_column, 0) {
        None => Err(schema::unknown_column(a.target_column)),
        Some(i) => match evaluated(r, s, s.columns[i], a.value, moment) {
            Err(m) => Err(m),
            Ok(Some(value)) => Ok(r.with(a.target_column, value)),
            Ok(None) => if s.columns[i].nullable {
                Ok(r.with_null(a.target_column))
            } else {
                Err("Column '"@ + s.columns[i].name + "' cannot be null"@)
            },
        },
    }
}

/// A row after the assignments from the `at`-th on; each sees what those before it have done.
pub open spec fn assigned_from(
    r: RowModel,
    s: SchemaModel,
    list: Seq<AssignmentModel>,
    moment: MomentModel,
    at: int,
) -> Result<RowModel, Seq<char>>
    decreases list.len() - at,
{
    if at < 0 || at >= list.len() {
        Ok(r)
    } else {
        match assigned_one(r, s, list[at], moment) {
            Err(m) => Err(m),
            Ok(next) => assigned_from(next, s, list, moment, at + 1),
        }
    }
}

/// What a row holds once the assignments from the `at`-th on have run: the effect of those before
/// the first that fails, or of all.
pub open spec fn kept_from(
    r: RowModel,
    s: SchemaModel,
    list: Seq<AssignmentModel>,
    moment: MomentModel,
    at: int,
) -> RowModel
    decreases list.len() - at,
{
    if at < 0 || at >= list.len() {
        r
    } else {
        match assigned_one(r, s, list[at], moment) {
            Err(_) => r,
            Ok(next) => kept_from(next, s, list, moment, at + 1),
        }
    }
}

/// Applies assignments to a row at a moment. Where one fails, the row keeps what those before it
/// have done.
#[verifier::loop_isolation(false)]
pub fn apply_expression_assignments_at(
    r: &mut Row,
    schema: &TableSchema,
    assignments: &Vec<ExpressionAssignment>,
    moment: &Moment,
) -> (res: DbResult<()>)
    ensures
        final(r)@ == kept_from(old(r)@, schema@, assignments.deep_view(), moment@, 0),
        res matches Ok(_) ==> assigned_from(
            old(r)@,
            schema@,
            assignments.deep_view(),
            moment@,
            0,
        ) == Ok::<RowModel, Seq<char>>(final(r)@),
        res matches Err(e) ==> assigned_from(
            old(r)@,
            schema@,
            assignments.deep_view(),
            moment@,
            0,
        ) == Err::<RowModel, Seq<char>>(e.message@),
{
    let ghost list = assignments.deep_view();
    let ghost whole = assigned_from(r@, schema@, list, moment@, 0);
    let ghost kept = kept_from(r@, schema@, list, moment@, 0);
    let mut i: usize = 0;
    while i < assignments.len()
        invariant
            i <= assignments@.len(),
            list == assignments.deep_view(),
            assigned_from(r@, schema@, list, moment@, i as int) == whole,
            kept_from(r@, schema@, list, moment@, i as int) == kept,
        decreases assignments@.len() - i,
    {
        let a = &assignments[i];
        assert(list[i as int] == a@);
        match schema::find_column(&schema.columns, a.target_column.as_str()) {
            None => {
                return Err(schema::unknown_column_error(a.target_column.as_str()));
            },
            Some(at) => {
                let target = &schema.columns[at];
                assert(schema@.columns[at as int] == target@);
                match evaluate_update_value(r, schema, target, &a.value, moment) {
                    Err(m) => {
                        return Err(m);
                    },
                    Ok(value) => match value {
                        Some(bytes) => {
                            r.set(a.target_column.as_str(), bytes);
                        },
                        None => {
                            if target.nullable {
                                r.set_null(a.target_column.as_str());
                            } else {
                                return Err(
                                    DbError::new(
                                        error::cat3(
                                            "Column '",
                                            target.name.as_str(),
                                            "' cannot be null",
                                        ),
                                    ),
                                );
                            }
                        },
                    },
                }
            },
        }
        i += 1;
    }
    Ok(())
}

/// Applies assignments to a row at the present moment. Where one fails, the row keeps what those
/// before it have done.
pub fn apply_expression_assignments(
    r: &mut Row,
    schema: &TableSchema,
    assignments: &Vec<ExpressionAssignment>,
) -> (res: DbResult<()>)
    ensures
        exists|moment: MomentModel|
            final(r)@ == kept_from(old(r)@, schema@, assignments.deep_view(), moment, 0)
                && match res {
                Ok(_) => #[trigger] assigned_from(
                    old(r)@,
                    schema@,
                    assignments.deep_view(),
                    moment,
                    0,
                ) == Ok::<RowModel, Seq<char>>(final(r)@),
                Err(e) => assigned_from(old(r)@, schema@, assignments.deep_view(), moment, 0)
                    == Err::<RowModel, Seq<char>>(e.message@),
            },
{
    let moment = Moment::now();
    apply_expression_assignments_at(r, schema, assignments, &moment)
}

// ---------------------------------------------------------------------------------------------
// Laws
// ---------------------------------------------------------------------------------------------
/// Which of the assignments from the `at`-th on is the first to fail.
pub open spec fn first_failing(
    r: RowModel,
    s: SchemaModel,
    list: Seq<AssignmentModel>,
    moment: MomentModel,
    at: int,
) -> Option<int>
    decreases list.len() - at,
{
    if at < 0 || at >= list.len() {
        None
    } else {
        match assigned_one(r, s, list[at], moment) {
            Err(_) => Some(at),
            Ok(next) => first_failing(next, s, list, moment, at + 1),
        }
    }
}

proof fn failing_from(
    r: RowModel,
    s: SchemaModel,
    list: Seq<AssignmentModel>,
    moment: MomentModel,
    at: int,
)
    requires
        0 <= at <= list.len(),
    ensures
        match first_failing(r, s, list, moment, at) {
            None => assigned_from(r, s, list, moment, at) == Ok::<RowModel, Seq<char>>(
                kept_from(r, s, list, moment, at),
            ),
            Some(k) => {
                let kept = kept_from(r, s, list, moment, at);
                &&& at <= k < list.len()
                &&& assigned_from(r, s, list.take(k), moment, at) == Ok::<RowModel, Seq<char>>(kept)
                &&& assigned_one(kept, s, list[k], moment) is Err
                &&& assigned_from(r, s, list, moment, at) == Err::<RowModel, Seq<char>>(
                    assigned_one(kept, s, list[k], moment)->Err_0,
                )
            },
        },
    decreases list.len() - at,
{
    if at < list.len() {
        match assigned_one(r, s, list[at], moment) {
            Err(_) => {},
            Ok(next) => {
                failing_from(next, s, list, moment, at + 1);
                if let Some(k) = first_failing(next, s, list, moment, at + 1) {
                    assert(list.take(k)[at] == list[at]);
                }
            },
        }
    }
}

/// Assignments fail exactly where one of them fails on the row that those before it leave: its
/// column is unknown, its value cannot be computed, or it is NULL where that is not allowed. The
/// row then holds the effect of the assignments before the first that fails, and its error is the
/// one returned.
pub proof fn failed_assignments_keep_those_before(
    r: RowModel,
    s: SchemaModel,
    list: Seq<AssignmentModel>,
    moment: MomentModel,
)
    ensures
        assigned_from(r, s, list, moment, 0) is Err == first_failing(r, s, list, moment, 0) is Some,
        match first_failing(r, s, list, moment, 0) {
            None => assigned_from(r, s, list, moment, 0) == Ok::<RowModel, Seq<char>>(
                kept_from(r, s, list, moment, 0),
            ),
            Some(k) => {
                let kept = kept_from(r, s, list, moment, 0);
                &&& 0 <= k < list.len()
                &&& assigned_from(r, s, list.take(k), moment, 0) == Ok::<RowModel, Seq<char>>(kept)
                &&& assigned_one(kept, s, list[k], moment) is Err
                &&& assigned_from(r, s, list, moment, 0) == Err::<RowModel, Seq<char>>(
                    assigned_one(kept, s, list[k], moment)->Err_0,
                )
            },
        },
{
    failing_from(r, s, list, moment, 0);
}

/// Columns that no assignment names stay as they were, whether or not the assignments succeed.
pub proof fn other_columns_stay(
    r: RowModel,
    s: SchemaModel,
    list: Seq<AssignmentModel>,
    moment: MomentModel,
    at: int,
    name: Seq<char>,
)
    requires
        0 <= at,
        forall|i: int|
            0 <= i < list.len() ==> !text::same_fold((#[trigger] list[i]).target_column, name),
    ensures
        kept_from(r, s, list, moment, at).get(name) == r.get(name),
        kept_from(r, s, list, moment, at).is_null(name) == r.is_null(name),
    decreases list.len() - at,
{
    if at < list.len() {
        let target = list[at].target_column;
        assert(!text::same_fold(target, name));
        if let Some(i) = schema::column_at(s.columns, target, 0) {
            if let Ok(Some(value)) = evaluated(r, s, s.columns[i], list[at].value, moment) {
                row::set_then_get(r, target, value, name);
            }
            row::set_null_then_is_null(r, target, name);
        }
        if let Ok(next) = assigned_one(r, s, list[at], moment) {
            other_columns_stay(next, s, list, moment, at + 1, name);
        }
    }
}

} // verus!
