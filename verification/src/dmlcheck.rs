//! Validating commands that change rows.
use crate::alter;
use crate::checks;
use crate::commands;
use crate::commands::SetModel;
use crate::database;
use crate::error;
use crate::error::{DbError, DbResult};
use crate::images;
use crate::pairs;
use crate::predicate;
use crate::predicate::{Context, ContextModel, PredicateModel, RowPredicate};
use crate::row::{Row, RowModel};
use crate::schema;
use crate::schema::{ColumnModel, SchemaModel, TableSchema};
use crate::store::{Store, StoreModel};
use crate::text;
use crate::validate;
use crate::validate::{KeysModel, Shadow, ShadowModel};
use crate::values;
use crate::values::{AssignmentModel, ExpressionAssignment, UpdateModel, UpdateValueExpression};
use vstd::prelude::*;

verus! {

/// The shadow with the rows of a checked table set.
pub open spec fn with_checked(
    sh: ShadowModel,
    d: Seq<char>,
    t: Seq<char>,
    rows: Seq<RowModel>,
) -> ShadowModel {
    ShadowModel { checked: pairs::with_pair(sh.checked, d, t, rows), ..sh }
}

/// Whether the stored rows of a table count.
pub open spec fn stored_counts(sh: ShadowModel, d: Seq<char>, t: Seq<char>) -> bool {
    !sh.reset_databases.contains(d) && !sh.reset_tables.contains((d, t))
}

/// The first column that a filter names and a table lacks.
pub open spec fn filter_fits(filter: Option<PredicateModel>, s: SchemaModel) -> Option<Seq<char>> {
    match filter {
        None => None,
        Some(p) => alter::missing_from(s.columns, predicate::predicate_columns(p), 0),
    }
}

fn check_filter(filter: &Option<RowPredicate>, s: &TableSchema) -> (r: DbResult<()>)
    ensures
        match r {
            Ok(_) => filter_fits(filter.deep_view(), s@) is None,
            Err(e) => filter_fits(filter.deep_view(), s@) matches Some(n) && e.message@
                == schema::unknown_column(n),
        },
{
    match filter {
        None => Ok(()),
        Some(p) => {
            let names = p.columns();
            alter::check_columns(&s.columns, &names)
        },
    }
}

// ---------------------------------------------------------------------------------------------
// INSERT
// ---------------------------------------------------------------------------------------------
#[verifier::opaque]
pub open spec fn insert_step(
    sh: ShadowModel,
    d: Seq<char>,
    t: Seq<char>,
    r: RowModel,
    store: StoreModel,
    cx: ContextModel,
) -> Result<ShadowModel, Seq<char>> {
    match validate::schema_in(sh.catalog, d, t) {
        None => Err(database::no_table(t)),
        Some(s) => match values::materialized(r, s, cx.moment) {
            Err(e) => Err(e),
            Ok(full) => {
                let seen = if validate::has_checks(s) {
                    match validate::image(sh.checked, sh, store, d, t) {
                        Err(e) => Err(e),
                        Ok(rows) => Ok(with_checked(sh, d, t, rows.push(full))),
                    }
                } else {
                    Ok(sh)
                };
                match seen {
                    Err(e) => Err(e),
                    Ok(next) => match validate::keys_added(
                        next.keys,
                        full,
                        schema::keys(s),
                        d,
                        t,
                        stored_counts(sh, d, t),
                        store,
                        0,
                    ) {
                        Err(e) => Err(e),
                        Ok(keys) => Ok(ShadowModel { keys: keys, ..next }),
                    },
                }
            },
        },
    }
}

impl Shadow {
    pub(crate) fn insert(&mut self, d: &str, t: &str, r: &Row, store: &Store, cx: &Context) -> (res: DbResult<
        (),
    >)
        requires
            store.wf(),
        ensures
            match res {
                Ok(_) => insert_step(old(self)@, d@, t@, r@, store@, cx@) == Ok::<
                    ShadowModel,
                    Seq<char>,
                >(final(self)@),
                Err(e) => insert_step(old(self)@, d@, t@, r@, store@, cx@) == Err::<
                    ShadowModel,
                    Seq<char>,
                >(e.message@),
            },
    {
        proof {
            reveal(insert_step);
        }
        let s = match validate::find_schema(&self.catalog, d, t) {
            None => {
                return Err(database::no_table_error(t));
            },
            Some(s) => s.clone(),
        };
        let full = match values::materialize_row(r.clone(), &s, &cx.moment) {
            Err(e) => {
                return Err(e);
            },
            Ok(full) => full,
        };
        let counts = self.stored_rows_count(d, t);
        if validate::schema_has_checks(&s) {
            match validate::load_image(&self.checked, self, store, d, t) {
                Err(e) => {
                    return Err(e);
                },
                Ok(rows) => {
                    let mut rows = rows;
                    let ghost before = rows.deep_view();
                    let copy = full.clone();
                    rows.push(copy);
                    assert(rows.deep_view() =~= before.push(full@));
                    pairs::set_pair(&mut self.checked, d, t, rows);
                },
            }
        }
        let keys = schema::key_constraints(&s);
        validate::add_keys(&mut self.keys, &full, &keys, d, t, counts, store)
    }

    fn stored_rows_count(&self, d: &str, t: &str) -> (r: bool)
        ensures
            r == stored_counts(self@, d@, t@),
    {
        !crate::assoc::has_name(&self.reset_databases, d) && !pairs::has_pair(
            &self.reset_tables,
            d,
            t,
        )
    }
}

// ---------------------------------------------------------------------------------------------
// INSERT ... ON DUPLICATE KEY UPDATE
// ---------------------------------------------------------------------------------------------
/// The first row, from the `at`-th on, that cannot stand beside a row.
pub open spec fn conflicting_from(
    rows: Seq<RowModel>,
    r: RowModel,
    s: SchemaModel,
    at: int,
) -> Option<int>
    decreases rows.len() - at,
{
    if at < 0 || at >= rows.len() {
        None
    } else if commands::conflict(rows[at], r, s) {
        Some(at)
    } else {
        conflicting_from(rows, r, s, at + 1)
    }
}

pub fn find_conflicting(rows: &Vec<Row>, r: &Row, s: &TableSchema) -> (res: Option<usize>)
    ensures
        res is Some == conflicting_from(rows.deep_view(), r@, s@, 0) is Some,
        res matches Some(i) ==> i < rows@.len() && conflicting_from(rows.deep_view(), r@, s@, 0)
            == Some(i as int),
{
    let ghost all = rows.deep_view();
    let mut i: usize = 0;
    while i < rows.len()
        invariant
            i <= rows@.len(),
            all == rows.deep_view(),
            conflicting_from(all, r@, s@, i as int) == conflicting_from(all, r@, s@, 0),
        decreases rows@.len() - i,
    {
        assert(all[i as int] == rows@[i as int]@);
        if commands::rows_have_constraint_conflict(&rows[i], r, s) {
            return Some(i);
        }
        i += 1;
    }
    None
}

/// The rows of a checked table after an upsert.
pub open spec fn upserted_row(
    rows: Seq<RowModel>,
    full: RowModel,
    columns: Seq<Seq<char>>,
    s: SchemaModel,
    cx: ContextModel,
) -> Result<Seq<RowModel>, Seq<char>> {
    match conflicting_from(rows, full, s, 0) {
        None => Ok(rows.push(full)),
        Some(i) => match values::materialized(
            images::taken_from(rows[i], full, columns, 0),
            s,
            cx.moment,
        ) {
            Err(e) => Err(e),
            Ok(after) => Ok(rows.update(i, after)),
        },
    }
}

#[verifier::opaque]
pub open spec fn upsert_step(
    sh: ShadowModel,
    d: Seq<char>,
    t: Seq<char>,
    r: RowModel,
    columns: Seq<Seq<char>>,
    store: StoreModel,
    cx: ContextModel,
) -> Result<ShadowModel, Seq<char>> {
    match validate::schema_in(sh.catalog, d, t) {
        None => Err(database::no_table(t)),
        Some(s) => match values::materialized(r, s, cx.moment) {
            Err(e) => Err(e),
            Ok(full) => match alter::missing_from(s.columns, columns, 0) {
                Some(name) => Err(schema::unknown_column(name)),
                None => if !validate::has_checks(s) {
                    Ok(sh)
                } else {
                    match validate::image(sh.checked, sh, store, d, t) {
                        Err(e) => Err(e),
                        Ok(rows) => match upserted_row(rows, full, columns, s, cx) {
                            Err(e) => Err(e),
                            Ok(after) => Ok(with_checked(sh, d, t, after)),
                        },
                    }
                },
            },
        },
    }
}

impl Shadow {
    pub(crate) fn upsert(
        &mut self,
        d: &str,
        t: &str,
        r: &Row,
        columns: &Vec<String>,
        store: &Store,
        cx: &Context,
    ) -> (res: DbResult<()>)
        requires
            store.wf(),
        ensures
            match res {
                Ok(_) => upsert_step(
                    old(self)@,
                    d@,
                    t@,
                    r@,
                    columns.deep_view(),
                    store@,
                    cx@,
                ) == Ok::<ShadowModel, Seq<char>>(final(self)@),
                Err(e) => upsert_step(
                    old(self)@,
                    d@,
                    t@,
                    r@,
                    columns.deep_view(),
                    store@,
                    cx@,
                ) == Err::<ShadowModel, Seq<char>>(e.message@),
            },
    {
        proof {
            reveal(upsert_step);
        }
        let s = match validate::find_schema(&self.catalog, d, t) {
            None => {
                return Err(database::no_table_error(t));
            },
            Some(s) => s.clone(),
        };
        let full = match values::materialize_row(r.clone(), &s, &cx.moment) {
            Err(e) => {
                return Err(e);
            },
            Ok(full) => full,
        };
        match alter::check_columns(&s.columns, columns) {
            Err(e) => {
                return Err(e);
            },
            Ok(_) => {},
        }
        if !validate::schema_has_checks(&s) {
            return Ok(());
        }
        let mut rows = match validate::load_image(&self.checked, self, store, d, t) {
            Err(e) => {
                return Err(e);
            },
            Ok(rows) => rows,
        };
        let ghost before = rows.deep_view();
        match find_conflicting(&rows, &full, &s) {
            None => {
                rows.push(full);
                assert(rows.deep_view() =~= before.push(full@));
            },
            Some(i) => {
                let mut updated = rows[i].clone();
                images::take_columns(&mut updated, &full, columns);
                match values::materialize_row(updated, &s, &cx.moment) {
                    Err(e) => {
                        return Err(e);
                    },
                    Ok(after) => {
                        let ghost model = after@;
                        rows.set(i, after);
                        assert(rows.deep_view() =~= before.update(i as int, model));
                    },
                }
            },
        }
        pairs::set_pair(&mut self.checked, d, t, rows);
        Ok(())
    }
}

// ---------------------------------------------------------------------------------------------
// UPDATE
// ---------------------------------------------------------------------------------------------
/// Whether a column of a name forbids NULL.
pub open spec fn forbids_null(columns: Seq<ColumnModel>, name: Seq<char>) -> bool {
    exists|i: int|
        0 <= i < columns.len() && (#[trigger] columns[i]).name == name && !columns[i].nullable
}

fn column_forbids_null(s: &TableSchema, name: &str) -> (r: bool)
    ensures
        r == forbids_null(s@.columns, name@),
{
    let mut i: usize = 0;
    while i < s.columns.len()
        invariant
            i <= s.columns@.len(),
            forall|j: int|
                0 <= j < i ==> !((#[trigger] s@.columns[j]).name == name@ && !s@.columns[j].nullable),
        decreases s.columns@.len() - i,
    {
        assert(s@.columns[i as int] == s.columns@[i as int]@);
        if text::text_equal(s.columns[i].name.as_str(), name) && !s.columns[i].nullable {
            return true;
        }
        i += 1;
    }
    false
}

pub open spec fn not_null(name: Seq<char>) -> Seq<char> {
    "Column '"@ + name + "' cannot be null"@
}

/// Why the assignments from the `at`-th on do not fit a table.
pub open spec fn sets_fail(sets: SetModel, s: SchemaModel, at: int) -> Option<Seq<char>>
    decreases sets.len() - at,
{
    if at < 0 || at >= sets.len() {
        None
    } else if !schema::has_column(s.columns, sets[at].0) {
        Some(schema::unknown_column(sets[at].0))
    } else if sets[at].1 is None && forbids_null(s.columns, sets[at].0) {
        Some(not_null(sets[at].0))
    } else {
        sets_fail(sets, s, at + 1)
    }
}

fn check_sets(sets: &Vec<(String, Option<Vec<u8>>)>, s: &TableSchema) -> (r: DbResult<()>)
    ensures
        match r {
            Ok(_) => sets_fail(sets.deep_view(), s@, 0) is None,
            Err(e) => sets_fail(sets.deep_view(), s@, 0) == Some(e.message@),
        },
{
    let ghost list = sets.deep_view();
    let mut i: usize = 0;
    while i < sets.len()
        invariant
            i <= sets@.len(),
            list == sets.deep_view(),
            sets_fail(list, s@, i as int) == sets_fail(list, s@, 0),
        decreases sets@.len() - i,
    {
        proof {
            commands::value_model(sets@[i as int].1);
            assert(list[i as int] == (
                sets@[i as int].0@,
                values::bytes_option(sets@[i as int].1),
            ));
        }
        match schema::validate_column_exists(s, sets[i].0.as_str()) {
            Err(e) => {
                return Err(e);
            },
            Ok(_) => {},
        }
        if sets[i].1.is_none() && column_forbids_null(s, sets[i].0.as_str()) {
            return Err(
                DbError::new(
                    error::cat3("Column '", sets[i].0.as_str(), "' cannot be null"),
                ),
            );
        }
        i += 1;
    }
    Ok(())
}

/// The rows of a checked table, from the `at`-th on, after an UPDATE of constants.
pub open spec fn sets_checked(
    rows: Seq<RowModel>,
    filter: Option<PredicateModel>,
    sets: SetModel,
    s: SchemaModel,
    cx: ContextModel,
    at: int,
    done: Seq<RowModel>,
) -> Result<Seq<RowModel>, Seq<char>>
    decreases rows.len() - at,
{
    if at < 0 || at >= rows.len() {
        Ok(done)
    } else if !predicate::passes(filter, rows[at], cx) {
        sets_checked(rows, filter, sets, s, cx, at + 1, done.push(rows[at]))
    } else {
        match values::materialized(images::set_from(rows[at], sets, 0), s, cx.moment) {
            Err(e) => Err(e),
            Ok(r) => sets_checked(rows, filter, sets, s, cx, at + 1, done.push(r)),
        }
    }
}

#[verifier::loop_isolation(false)]
fn check_set_rows(
    rows: &Vec<Row>,
    filter: &Option<RowPredicate>,
    sets: &Vec<(String, Option<Vec<u8>>)>,
    s: &TableSchema,
    cx: &Context,
) -> (r: DbResult<Vec<Row>>)
    ensures
        error::outcome(r) == sets_checked(
            rows.deep_view(),
            filter.deep_view(),
            sets.deep_view(),
            s@,
            cx@,
            0,
            Seq::empty(),
        ),
{
    let ghost all = rows.deep_view();
    let ghost whole = sets_checked(
        all,
        filter.deep_view(),
        sets.deep_view(),
        s@,
        cx@,
        0,
        Seq::empty(),
    );
    let mut out: Vec<Row> = Vec::new();
    let mut i: usize = 0;
    assert(out.deep_view() =~= Seq::empty());
    while i < rows.len()
        invariant
            i <= rows@.len(),
            all == rows.deep_view(),
            sets_checked(
                all,
                filter.deep_view(),
                sets.deep_view(),
                s@,
                cx@,
                i as int,
                out.deep_view(),
            ) == whole,
        decreases rows@.len() - i,
    {
        assert(all[i as int] == rows@[i as int]@);
        let ghost before = out.deep_view();
        let mut r = rows[i].clone();
        if predicate::row_matches(&rows[i], filter, cx) {
            images::apply_sets(&mut r, sets);
            match values::materialize_row(r, s, &cx.moment) {
                Err(e) => {
                    return Err(e);
                },
                Ok(full) => {
                    out.push(full);
                    assert(out.deep_view() =~= before.push(full@));
                },
            }
        } else {
            out.push(r);
            assert(out.deep_view() =~= before.push(r@));
        }
        i += 1;
    }
    Ok(out)
}

#[verifier::opaque]
pub open spec fn update_step(
    sh: ShadowModel,
    d: Seq<char>,
    t: Seq<char>,
    filter: Option<PredicateModel>,
    sets: SetModel,
    store: StoreModel,
    cx: ContextModel,
) -> Result<ShadowModel, Seq<char>> {
    match validate::schema_in(sh.catalog, d, t) {
        None => Err(database::no_table(t)),
        Some(s) => match sets_fail(sets, s, 0) {
            Some(e) => Err(e),
            None => match filter_fits(filter, s) {
                Some(name) => Err(schema::unknown_column(name)),
                None => if !validate::has_checks(s) {
                    Ok(sh)
                } else {
                    match validate::image(sh.checked, sh, store, d, t) {
                        Err(e) => Err(e),
                        Ok(rows) => match sets_checked(
                            rows,
                            filter,
                            sets,
                            s,
                            cx,
                            0,
                            Seq::empty(),
                        ) {
                            Err(e) => Err(e),
                            Ok(after) => Ok(with_checked(sh, d, t, after)),
                        },
                    }
                },
            },
        },
    }
}

impl Shadow {
    pub(crate) fn update(
        &mut self,
        d: &str,
        t: &str,
        filter: &Option<RowPredicate>,
        sets: &Vec<(String, Option<Vec<u8>>)>,
        store: &Store,
        cx: &Context,
    ) -> (res: DbResult<()>)
        requires
            store.wf(),
        ensures
            match res {
                Ok(_) => update_step(
                    old(self)@,
                    d@,
                    t@,
                    filter.deep_view(),
                    sets.deep_view(),
                    store@,
                    cx@,
                ) == Ok::<ShadowModel, Seq<char>>(final(self)@),
                Err(e) => update_step(
                    old(self)@,
                    d@,
                    t@,
                    filter.deep_view(),
                    sets.deep_view(),
                    store@,
                    cx@,
                ) == Err::<ShadowModel, Seq<char>>(e.message@),
            },
    {
        proof {
            reveal(update_step);
        }
        let s = match validate::find_schema(&self.catalog, d, t) {
            None => {
                return Err(database::no_table_error(t));
            },
            Some(s) => s.clone(),
        };
        match check_sets(sets, &s) {
            Err(e) => {
                return Err(e);
            },
            Ok(_) => {},
        }
        match check_filter(filter, &s) {
            Err(e) => {
                return Err(e);
            },
            Ok(_) => {},
        }
        if !validate::schema_has_checks(&s) {
            return Ok(());
        }
        let rows = match validate::load_image(&self.checked, self, store, d, t) {
            Err(e) => {
                return Err(e);
            },
            Ok(rows) => rows,
        };
        match check_set_rows(&rows, filter, sets, &s, cx) {
            Err(e) => Err(e),
            Ok(after) => {
                pairs::set_pair(&mut self.checked, d, t, after);
                Ok(())
            },
        }
    }
}

// ---------------------------------------------------------------------------------------------
// UPDATE by expressions
// ---------------------------------------------------------------------------------------------
/// Why an assignment of an expression does not fit a table.
pub open spec fn assignment_fails(a: AssignmentModel, s: SchemaModel, cx: ContextModel) -> Option<
    Seq<char>,
> {
    match schema::column_at(s.columns, a.target_column, 0) {
        None => Some(schema::unknown_column(a.target_column)),
        Some(i) => {
            let target = s.columns[i];
            match a.value {
                UpdateModel::Literal(value) => if value is None && !target.nullable {
                    Some(not_null(target.name))
                } else {
                    None
                },
                UpdateModel::Column(source) => if schema::has_column(s.columns, source) {
                    None
                } else {
                    Some(schema::unknown_column(source))
                },
                UpdateModel::Default(source) => match values::default_value(s, source, cx.moment) {
                    Err(e) => Some(e),
                    Ok(_) => None,
                },
                UpdateModel::Numeric { source_column, operand, .. } => match schema::column_at(
                    s.columns,
                    source_column,
                    0,
                ) {
                    None => Some(schema::unknown_column(source_column)),
                    Some(k) => if !values::is_numeric(s.columns[k].data_type)
                        || !values::is_numeric(target.data_type) {
                        Some("Numeric UPDATE requires numeric columns"@)
                    } else {
                        match checks::decimal_read(operand) {
                            Err(e) => Some(e),
                            Ok(_) => None,
                        }
                    },
                },
            }
        },
    }
}

fn check_assignment(a: &ExpressionAssignment, s: &TableSchema, cx: &Context) -> (r: DbResult<()>)
    ensures
        match r {
            Ok(_) => assignment_fails(a@, s@, cx@) is None,
            Err(e) => assignment_fails(a@, s@, cx@) == Some(e.message@),
        },
{
    let target = match schema::find_column(&s.columns, a.target_column.as_str()) {
        None => {
            return Err(schema::unknown_column_error(a.target_column.as_str()));
        },
        Some(i) => &s.columns[i],
    };
    match &a.value {
        UpdateValueExpression::Literal(value) => {
            if value.is_none() && !target.nullable {
                return Err(
                    DbError::new(error::cat3("Column '", target.name.as_str(), "' cannot be null")),
                );
            }
            Ok(())
        },
        UpdateValueExpression::Column(source) => schema::validate_column_exists(
            s,
            source.as_str(),
        ),
        UpdateValueExpression::Default(source) => match values::column_default_value(
            s,
            source.as_str(),
            &cx.moment,
        ) {
            Err(e) => Err(e),
            Ok(_) => Ok(()),
        },
        UpdateValueExpression::Numeric { source_column, operator: _, operand } => {
            let source = match schema::find_column(&s.columns, source_column.as_str()) {
                None => {
                    return Err(schema::unknown_column_error(source_column.as_str()));
                },
                Some(k) => &s.columns[k],
            };
            if !values::is_numeric_data_type(&source.data_type) || !values::is_numeric_data_type(
                &target.data_type,
            ) {
                return Err(DbError::of("Numeric UPDATE requires numeric columns"));
            }
            match checks::read_decimal(operand.as_slice()) {
                Err(e) => Err(e),
                Ok(_) => Ok(()),
            }
        },
    }
}

/// Why the assignments from the `at`-th on do not fit a table.
pub open spec fn assignments_fail(
    list: Seq<AssignmentModel>,
    s: SchemaModel,
    cx: ContextModel,
    at: int,
) -> Option<Seq<char>>
    decreases list.len() - at,
{
    if at < 0 || at >= list.len() {
        None
    } else {
        match assignment_fails(list[at], s, cx) {
            Some(e) => Some(e),
            None => assignments_fail(list, s, cx, at + 1),
        }
    }
}

fn check_assignments(list: &Vec<ExpressionAssignment>, s: &TableSchema, cx: &Context) -> (r: DbResult<
    (),
>)
    ensures
        match r {
            Ok(_) => assignments_fail(list.deep_view(), s@, cx@, 0) is None,
            Err(e) => assignments_fail(list.deep_view(), s@, cx@, 0) == Some(e.message@),
        },
{
    let ghost models = list.deep_view();
    let mut i: usize = 0;
    while i < list.len()
        invariant
            i <= list@.len(),
            models == list.deep_view(),
            assignments_fail(models, s@, cx@, i as int) == assignments_fail(models, s@, cx@, 0),
        decreases list@.len() - i,
    {
        assert(models[i as int] == list@[i as int]@);
        match check_assignment(&list[i], s, cx) {
            Err(e) => {
                return Err(e);
            },
            Ok(_) => {},
        }
        i += 1;
    }
    Ok(())
}

/// The rows of a checked table, from the `at`-th on, after an UPDATE of expressions.
pub open spec fn expressions_checked(
    rows: Seq<RowModel>,
    filter: Option<PredicateModel>,
    list: Seq<AssignmentModel>,
    s: SchemaModel,
    cx: ContextModel,
    at: int,
    done: Seq<RowModel>,
) -> Result<Seq<RowModel>, Seq<char>>
    decreases rows.len() - at,
{
    if at < 0 || at >= rows.len() {
        Ok(done)
    } else if !predicate::passes(filter, rows[at], cx) {
        expressions_checked(rows, filter, list, s, cx, at + 1, done.push(rows[at]))
    } else {
        match values::assigned_from(rows[at], s, list, cx.moment, 0) {
            Err(e) => Err(e),
            Ok(changed) => match values::materialized(changed, s, cx.moment) {
                Err(e) => Err(e),
                Ok(r) => expressions_checked(rows, filter, list, s, cx, at + 1, done.push(r)),
            },
        }
    }
}

#[verifier::loop_isolation(false)]
fn check_expression_rows(
    rows: &Vec<Row>,
    filter: &Option<RowPredicate>,
    list: &Vec<ExpressionAssignment>,
    s: &TableSchema,
    cx: &Context,
) -> (r: DbResult<Vec<Row>>)
    ensures
        error::outcome(r) == expressions_checked(
            rows.deep_view(),
            filter.deep_view(),
            list.deep_view(),
            s@,
            cx@,
            0,
            Seq::empty(),
        ),
{
    let ghost all = rows.deep_view();
    let ghost whole = expressions_checked(
        all,
        filter.deep_view(),
        list.deep_view(),
        s@,
        cx@,
        0,
        Seq::empty(),
    );
    let mut out: Vec<Row> = Vec::new();
    let mut i: usize = 0;
    assert(out.deep_view() =~= Seq::empty());
    while i < rows.len()
        invariant
            i <= rows@.len(),
            all == rows.deep_view(),
            expressions_checked(
                all,
                filter.deep_view(),
                list.deep_view(),
                s@,
                cx@,
                i as int,
                out.deep_view(),
            ) == whole,
        decreases rows@.len() - i,
    {
        assert(all[i as int] == rows@[i as int]@);
        let ghost before = out.deep_view();
        let mut r = rows[i].clone();
        if predicate::row_matches(&rows[i], filter, cx) {
            match values::apply_expression_assignments_at(&mut r, s, list, &cx.moment) {
                Err(e) => {
                    return Err(e);
                },
                Ok(_) => {},
            }
            match values::materialize_row(r, s, &cx.moment) {
                Err(e) => {
                    return Err(e);
                },
                Ok(full) => {
                    out.push(full);
                    assert(out.deep_view() =~= before.push(full@));
                },
            }
        } else {
            out.push(r);
            assert(out.deep_view() =~= before.push(r@));
        }
        i += 1;
    }
    Ok(out)
}

#[verifier::opaque]
pub open spec fn expression_step(
    sh: ShadowModel,
    d: Seq<char>,
    t: Seq<char>,
    filter: Option<PredicateModel>,
    list: Seq<AssignmentModel>,
    store: StoreModel,
    cx: ContextModel,
) -> Result<ShadowModel, Seq<char>> {
    match validate::schema_in(sh.catalog, d, t) {
        None => Err(database::no_table(t)),
        Some(s) => match assignments_fail(list, s, cx, 0) {
            Some(e) => Err(e),
            None => match filter_fits(filter, s) {
                Some(name) => Err(schema::unknown_column(name)),
                None => if !validate::has_checks(s) {
                    Ok(sh)
                } else {
                    match validate::image(sh.checked, sh, store, d, t) {
                        Err(e) => Err(e),
                        Ok(rows) => match expressions_checked(
                            rows,
                            filter,
                            list,
                            s,
                            cx,
                            0,
                            Seq::empty(),
                        ) {
                            Err(e) => Err(e),
                            Ok(after) => Ok(with_checked(sh, d, t, after)),
                        },
                    }
                },
            },
        },
    }
}

impl Shadow {
    pub(crate) fn update_expressions(
        &mut self,
        d: &str,
        t: &str,
        filter: &Option<RowPredicate>,
        list: &Vec<ExpressionAssignment>,
        store: &Store,
        cx: &Context,
    ) -> (res: DbResult<()>)
        requires
            store.wf(),
        ensures
            match res {
                Ok(_) => expression_step(
                    old(self)@,
                    d@,
                    t@,
                    filter.deep_view(),
                    list.deep_view(),
                    store@,
                    cx@,
                ) == Ok::<ShadowModel, Seq<char>>(final(self)@),
                Err(e) => expression_step(
                    old(self)@,
                    d@,
                    t@,
                    filter.deep_view(),
                    list.deep_view(),
                    store@,
                    cx@,
                ) == Err::<ShadowModel, Seq<char>>(e.message@),
            },
    {
        proof {
            reveal(expression_step);
        }
        let s = match validate::find_schema(&self.catalog, d, t) {
            None => {
                return Err(database::no_table_error(t));
            },
            Some(s) => s.clone(),
        };
        match check_assignments(list, &s, cx) {
            Err(e) => {
                return Err(e);
            },
            Ok(_) => {},
        }
        match check_filter(filter, &s) {
            Err(e) => {
                return Err(e);
            },
            Ok(_) => {},
        }
        if !validate::schema_has_checks(&s) {
            return Ok(());
        }
        let rows = match validate::load_image(&self.checked, self, store, d, t) {
            Err(e) => {
                return Err(e);
            },
            Ok(rows) => rows,
        };
        match check_expression_rows(&rows, filter, list, &s, cx) {
            Err(e) => Err(e),
            Ok(after) => {
                pairs::set_pair(&mut self.checked, d, t, after);
                Ok(())
            },
        }
    }
}

// ---------------------------------------------------------------------------------------------
// Table images
// ---------------------------------------------------------------------------------------------
/// The rows from the `at`-th on taken up: as the table stores them, and no key twice.
pub open spec fn replaced_from(
    rows: Seq<RowModel>,
    s: SchemaModel,
    d: Seq<char>,
    t: Seq<char>,
    store: StoreModel,
    cx: ContextModel,
    at: int,
    done: Seq<RowModel>,
    keys: KeysModel,
) -> Result<(Seq<RowModel>, KeysModel), Seq<char>>
    decreases rows.len() - at,
{
    if at < 0 || at >= rows.len() {
        Ok((done, keys))
    } else {
        match values::materialized(rows[at], s, cx.moment) {
            Err(e) => Err(e),
            Ok(full) => match validate::keys_added(
                keys,
                full,
                schema::keys(s),
                d,
                t,
                false,
                store,
                0,
            ) {
                Err(e) => Err(e),
                Ok(next) => replaced_from(
                    rows,
                    s,
                    d,
                    t,
                    store,
                    cx,
                    at + 1,
                    done.push(full),
                    next,
                ),
            },
        }
    }
}

#[verifier::opaque]
pub open spec fn replace_step(
    sh: ShadowModel,
    d: Seq<char>,
    t: Seq<char>,
    rows: Seq<RowModel>,
    store: StoreModel,
    cx: ContextModel,
) -> Result<ShadowModel, Seq<char>> {
    match validate::schema_in(sh.catalog, d, t) {
        None => Err(database::no_table(t)),
        Some(s) => match replaced_from(
            rows,
            s,
            d,
            t,
            store,
            cx,
            0,
            Seq::empty(),
            pairs::without_pair(sh.keys, d, t),
        ) {
            Err(e) => Err(e),
            Ok((full, keys)) => Ok(
                ShadowModel {
                    keys: keys,
                    checked: if validate::has_checks(s) {
                        pairs::with_pair(sh.checked, d, t, full)
                    } else {
                        sh.checked
                    },
                    reset_tables: pairs::pair_added(sh.reset_tables, d, t),
                    ..sh
                },
            ),
        },
    }
}

impl Shadow {
    #[verifier::loop_isolation(false)]
    pub(crate) fn replace(&mut self, d: &str, t: &str, rows: &Vec<Row>, store: &Store, cx: &Context) -> (res:
        DbResult<()>)
        requires
            store.wf(),
        ensures
            match res {
                Ok(_) => replace_step(old(self)@, d@, t@, rows.deep_view(), store@, cx@) == Ok::<
                    ShadowModel,
                    Seq<char>,
                >(final(self)@),
                Err(e) => replace_step(old(self)@, d@, t@, rows.deep_view(), store@, cx@) == Err::<
                    ShadowModel,
                    Seq<char>,
                >(e.message@),
            },
    {
        proof {
            reveal(replace_step);
        }
        let ghost start = self@;
        let s = match validate::find_schema(&self.catalog, d, t) {
            None => {
                return Err(database::no_table_error(t));
            },
            Some(s) => s.clone(),
        };
        pairs::remove_pairs(&mut self.keys, d, Some(t));
        pairs::add_pair(&mut self.reset_tables, d, t);
        let keys = schema::key_constraints(&s);
        let ghost all = rows.deep_view();
        let ghost whole = replaced_from(
            all,
            s@,
            d@,
            t@,
            store@,
            cx@,
            0,
            Seq::empty(),
            self@.keys,
        );
        let ghost base = self@;
        let mut out: Vec<Row> = Vec::new();
        let mut i: usize = 0;
        assert(out.deep_view() =~= Seq::empty());
        while i < rows.len()
            invariant
                i <= rows@.len(),
                all == rows.deep_view(),
                keys.deep_view() == schema::keys(s@),
                self@ == (ShadowModel { keys: self@.keys, ..base }),
                replaced_from(
                    all,
                    s@,
                    d@,
                    t@,
                    store@,
                    cx@,
                    i as int,
                    out.deep_view(),
                    self@.keys,
                ) == whole,
            decreases rows@.len() - i,
        {
            assert(all[i as int] == rows@[i as int]@);
            let full = match values::materialize_row(rows[i].clone(), &s, &cx.moment) {
                Err(e) => {
                    return Err(e);
                },
                Ok(full) => full,
            };
            match validate::add_keys(&mut self.keys, &full, &keys, d, t, false, store) {
                Err(e) => {
                    return Err(e);
                },
                Ok(_) => {},
            }
            let ghost before = out.deep_view();
            out.push(full);
            assert(out.deep_view() =~= before.push(full@));
            i += 1;
        }
        if validate::schema_has_checks(&s) {
            pairs::set_pair(&mut self.checked, d, t, out);
        }
        Ok(())
    }
}

// ---------------------------------------------------------------------------------------------
// DELETE
// ---------------------------------------------------------------------------------------------
#[verifier::opaque]
pub open spec fn delete_step(
    sh: ShadowModel,
    d: Seq<char>,
    t: Seq<char>,
    filter: Option<PredicateModel>,
    store: StoreModel,
    cx: ContextModel,
) -> Result<ShadowModel, Seq<char>> {
    match validate::schema_in(sh.catalog, d, t) {
        None => Err(database::no_table(t)),
        Some(s) => match filter_fits(filter, s) {
            Some(name) => Err(schema::unknown_column(name)),
            None => if !validate::has_checks(s) {
                Ok(sh)
            } else {
                match validate::image(sh.checked, sh, store, d, t) {
                    Err(e) => Err(e),
                    Ok(rows) => Ok(with_checked(sh, d, t, images::kept(rows, filter, cx))),
                }
            },
        },
    }
}

impl Shadow {
    pub(crate) fn delete(
        &mut self,
        d: &str,
        t: &str,
        filter: &Option<RowPredicate>,
        store: &Store,
        cx: &Context,
    ) -> (res: DbResult<()>)
        requires
            store.wf(),
        ensures
            match res {
                Ok(_) => delete_step(
                    old(self)@,
                    d@,
                    t@,
                    filter.deep_view(),
                    store@,
                    cx@,
                ) == Ok::<ShadowModel, Seq<char>>(final(self)@),
                Err(e) => delete_step(
                    old(self)@,
                    d@,
                    t@,
                    filter.deep_view(),
                    store@,
                    cx@,
                ) == Err::<ShadowModel, Seq<char>>(e.message@),
            },
    {
        proof {
            reveal(delete_step);
        }
        let s = match validate::find_schema(&self.catalog, d, t) {
            None => {
                return Err(database::no_table_error(t));
            },
            Some(s) => s.clone(),
        };
        match check_filter(filter, &s) {
            Err(e) => {
                return Err(e);
            },
            Ok(_) => {},
        }
        if !validate::schema_has_checks(&s) {
            return Ok(());
        }
        match validate::load_image(&self.checked, self, store, d, t) {
            Err(e) => Err(e),
            Ok(rows) => {
                let after = images::delete_image(&rows, filter, cx);
                pairs::set_pair(&mut self.checked, d, t, after);
                Ok(())
            },
        }
    }
}

} // verus!
