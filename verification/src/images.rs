//! What statements do to the rows of a table.
use crate::altered;
use crate::commands;
use crate::commands::SetModel;
use crate::error;
use crate::error::{DbError, DbResult};
use crate::index;
use crate::num;
use crate::predicate;
use crate::predicate::{Context, ContextModel, PredicateModel, RowPredicate};
use crate::row;
use crate::row::{Row, RowModel};
use crate::schema;
use crate::schema::{KeyConstraint, KeyModel, Moment, MomentModel, SchemaModel, TableSchema};
use crate::seqs;
use crate::sqltext;
use crate::text;
use crate::values;
use crate::values::{AssignmentModel, ExpressionAssignment};
use vstd::prelude::*;
use vstd::utf8::{
    decode_utf8, encode_utf8, encode_utf8_decode_utf8, encode_utf8_valid_utf8, valid_utf8,
};

verus! {

// ---------------------------------------------------------------------------------------------
// Rows as the table stores them
// ---------------------------------------------------------------------------------------------
pub open spec fn materialized_from(
    rows: Seq<RowModel>,
    s: SchemaModel,
    m: MomentModel,
    at: int,
    done: Seq<RowModel>,
) -> Result<Seq<RowModel>, Seq<char>>
    decreases rows.len() - at,
{
    if at < 0 || at >= rows.len() {
        Ok(done)
    } else {
        match values::materialized(rows[at], s, m) {
            Err(e) => Err(e),
            Ok(r) => materialized_from(rows, s, m, at + 1, done.push(r)),
        }
    }
}

/// Rows as their table stores them, or the first failure.
pub open spec fn materialized_all(rows: Seq<RowModel>, s: SchemaModel, m: MomentModel) -> Result<
    Seq<RowModel>,
    Seq<char>,
> {
    materialized_from(rows, s, m, 0, Seq::empty())
}

pub fn materialize_rows(rows: &Vec<Row>, s: &TableSchema, m: &Moment) -> (r: DbResult<Vec<Row>>)
    ensures
        error::outcome(r) == materialized_all(rows.deep_view(), s@, m@),
{
    let ghost all = rows.deep_view();
    let mut out: Vec<Row> = Vec::new();
    let mut i: usize = 0;
    assert(out.deep_view() =~= Seq::empty());
    while i < rows.len()
        invariant
            i <= rows@.len(),
            all == rows.deep_view(),
            materialized_from(all, s@, m@, i as int, out.deep_view()) == materialized_all(
                all,
                s@,
                m@,
            ),
        decreases rows@.len() - i,
    {
        assert(all[i as int] == rows@[i as int]@);
        let ghost before = out.deep_view();
        match values::materialize_row(rows[i].clone(), s, m) {
            Err(e) => {
                return Err(e);
            },
            Ok(full) => {
                out.push(full);
                assert(out.deep_view() =~= before.push(full@));
            },
        }
        i += 1;
    }
    Ok(out)
}

// ---------------------------------------------------------------------------------------------
// Keys
// ---------------------------------------------------------------------------------------------
/// Whether no two rows have the same key. Rows without the key, because of a NULL, do not count.
pub open spec fn unique(rows: Seq<RowModel>, columns: Seq<Seq<char>>) -> bool {
    forall|a: int, b: int|
        0 <= a < b < rows.len() && values::key(#[trigger] rows[a], columns) is Some ==> values::key(
            rows[a],
            columns,
        ) != values::key(#[trigger] rows[b], columns)
}

pub fn rows_unique(rows: &Vec<Row>, columns: &Vec<String>) -> (r: bool)
    ensures
        r == unique(rows.deep_view(), columns.deep_view()),
{
    let ghost all = rows.deep_view();
    let ghost names = columns.deep_view();
    let mut seen: Vec<Vec<u8>> = Vec::new();
    let mut i: usize = 0;
    assert(seen.deep_view().to_set() =~= index::key_set(all.take(0), names));
    while i < rows.len()
        invariant
            i <= rows@.len(),
            all == rows.deep_view(),
            names == columns.deep_view(),
            seen.deep_view().to_set() == index::key_set(all.take(i as int), names),
            unique(all.take(i as int), names),
        decreases rows@.len() - i,
    {
        let ghost before = all.take(i as int);
        let ghost after = all.take(i + 1);
        proof {
            assert(all[i as int] == rows@[i as int]@);
            assert(after.drop_last() =~= before);
            assert(after.last() == all[i as int]);
        }
        match values::encode_key(&rows[i], columns) {
            Some(key) => {
                proof {
                    index::key_set_means(before, names, key@);
                }
                if altered::bytes_among(&seen, key.as_slice()) {
                    proof {
                        let a = choose|a: int|
                            0 <= a < before.len() && values::key(#[trigger] before[a], names)
                                == Some(key@);
                        assert(all[a] == before[a]);
                    }
                    return false;
                }
                proof {
                    assert forall|a: int, b: int|
                        0 <= a < b < after.len() && values::key(#[trigger] after[a], names) is Some implies values::key(
                    after[a], names) != values::key(#[trigger] after[b], names) by {
                        assert(after[a] == before[a]);
                        if b < before.len() {
                            assert(after[b] == before[b]);
                        }
                    }
                }
                altered::add_bytes(&mut seen, key);
            },
            None => {
                proof {
                    assert forall|a: int, b: int|
                        0 <= a < b < after.len() && values::key(#[trigger] after[a], names) is Some implies values::key(
                    after[a], names) != values::key(#[trigger] after[b], names) by {
                        assert(after[a] == before[a]);
                        if b < before.len() {
                            assert(after[b] == before[b]);
                        }
                    }
                }
            },
        }
        i += 1;
    }
    assert(all.take(i as int) =~= all);
    true
}

/// The first constraint, from the `at`-th on, of which two rows have the same key.
pub open spec fn repeated_from(rows: Seq<RowModel>, keys: Seq<KeyModel>, at: int) -> Option<Seq<char>>
    decreases keys.len() - at,
{
    if at < 0 || at >= keys.len() {
        None
    } else if !unique(rows, keys[at].columns) {
        Some(keys[at].name)
    } else {
        repeated_from(rows, keys, at + 1)
    }
}

pub open spec fn duplicate_entry(name: Seq<char>) -> Seq<char> {
    "Duplicate entry for key '"@ + name + "'"@
}

pub fn duplicate_error(name: &str) -> (r: DbError)
    ensures
        r.message@ == duplicate_entry(name@),
{
    DbError::new(error::cat3("Duplicate entry for key '", name, "'"))
}

/// Rows that are to stand for a table: as it stores them, and no key twice.
pub open spec fn prepared(rows: Seq<RowModel>, s: SchemaModel, m: MomentModel) -> Result<
    Seq<RowModel>,
    Seq<char>,
> {
    match materialized_all(rows, s, m) {
        Err(e) => Err(e),
        Ok(full) => match repeated_from(full, schema::keys(s), 0) {
            Some(name) => Err(duplicate_entry(name)),
            None => Ok(full),
        },
    }
}

pub fn prepare_replacement_rows(rows: &Vec<Row>, s: &TableSchema, m: &Moment) -> (r: DbResult<
    Vec<Row>,
>)
    ensures
        error::outcome(r) == prepared(rows.deep_view(), s@, m@),
{
    match materialize_rows(rows, s, m) {
        Err(e) => Err(e),
        Ok(full) => {
            let keys = schema::key_constraints(s);
            let ghost models = keys.deep_view();
            let mut i: usize = 0;
            while i < keys.len()
                invariant
                    i <= keys@.len(),
                    models == keys.deep_view(),
                    models == schema::keys(s@),
                    materialized_all(rows.deep_view(), s@, m@) == Ok::<Seq<RowModel>, Seq<char>>(
                        full.deep_view(),
                    ),
                    repeated_from(full.deep_view(), models, i as int) == repeated_from(
                        full.deep_view(),
                        models,
                        0,
                    ),
                decreases keys@.len() - i,
            {
                assert(models[i as int] == keys@[i as int]@);
                if !rows_unique(&full, &keys[i].columns) {
                    return Err(duplicate_error(keys[i].name.as_str()));
                }
                i += 1;
            }
            Ok(full)
        },
    }
}

/// Rows that may stand for a table have each key at most once.
pub proof fn prepared_unique(rows: Seq<RowModel>, s: SchemaModel, m: MomentModel, k: int)
    requires
        prepared(rows, s, m) is Ok,
        0 <= k < schema::keys(s).len(),
    ensures
        unique(prepared(rows, s, m)->Ok_0, schema::keys(s)[k].columns),
{
    unrepeated(prepared(rows, s, m)->Ok_0, schema::keys(s), 0, k);
}

proof fn unrepeated(rows: Seq<RowModel>, keys: Seq<KeyModel>, at: int, k: int)
    requires
        0 <= at <= k < keys.len(),
        repeated_from(rows, keys, at) is None,
    ensures
        unique(rows, keys[k].columns),
    decreases k - at,
{
    if at < k {
        unrepeated(rows, keys, at + 1, k);
    }
}

// ---------------------------------------------------------------------------------------------
// UPDATE
// ---------------------------------------------------------------------------------------------
/// A row with the assignments from the `at`-th on made; no value stands for NULL.
pub open spec fn set_from(r: RowModel, sets: SetModel, at: int) -> RowModel
    decreases sets.len() - at,
{
    if at < 0 || at >= sets.len() {
        r
    } else {
        set_from(
            match sets[at].1 {
                Some(value) => r.with(sets[at].0, value),
                None => r.with_null(sets[at].0),
            },
            sets,
            at + 1,
        )
    }
}

pub fn apply_sets(r: &mut Row, sets: &Vec<(String, Option<Vec<u8>>)>)
    ensures
        final(r)@ == set_from(old(r)@, sets.deep_view(), 0),
{
    let ghost list = sets.deep_view();
    let ghost whole = set_from(r@, list, 0);
    let mut i: usize = 0;
    while i < sets.len()
        invariant
            i <= sets@.len(),
            list == sets.deep_view(),
            set_from(r@, list, i as int) == whole,
        decreases sets@.len() - i,
    {
        proof {
            commands::value_model(sets@[i as int].1);
            assert(list[i as int] == (sets@[i as int].0@, values::bytes_option(sets@[i as int].1)));
        }
        match &sets[i].1 {
            Some(value) => {
                r.set(sets[i].0.as_str(), text::copy_bytes(value.as_slice()));
            },
            None => {
                r.set_null(sets[i].0.as_str());
            },
        }
        i += 1;
    }
}

/// The rows after an UPDATE of constants.
pub open spec fn updated(
    rows: Seq<RowModel>,
    filter: Option<PredicateModel>,
    sets: SetModel,
    cx: ContextModel,
) -> Seq<RowModel> {
    rows.map_values(
        |r: RowModel|
            if predicate::passes(filter, r, cx) {
                set_from(r, sets, 0)
            } else {
                r
            },
    )
}

/// How many of the first `n` rows differ.
pub open spec fn differing(before: Seq<RowModel>, after: Seq<RowModel>, n: int) -> nat
    decreases n,
{
    if n <= 0 {
        0
    } else {
        differing(before, after, n - 1) + (if before[n - 1] != after[n - 1] {
            1nat
        } else {
            0nat
        })
    }
}

pub fn update_image(
    rows: &Vec<Row>,
    filter: &Option<RowPredicate>,
    sets: &Vec<(String, Option<Vec<u8>>)>,
    cx: &Context,
) -> (r: (Vec<Row>, u64))
    ensures
        r.0.deep_view() == updated(rows.deep_view(), filter.deep_view(), sets.deep_view(), cx@),
        r.1 == differing(rows.deep_view(), r.0.deep_view(), rows@.len() as int),
{
    let ghost all = rows.deep_view();
    let ghost target = updated(all, filter.deep_view(), sets.deep_view(), cx@);
    let mut out: Vec<Row> = Vec::new();
    let mut affected: u64 = 0;
    let mut i: usize = 0;
    assert(out.deep_view() =~= target.take(0));
    while i < rows.len()
        invariant
            i <= rows@.len(),
            all == rows.deep_view(),
            target == updated(all, filter.deep_view(), sets.deep_view(), cx@),
            out.deep_view() == target.take(i as int),
            affected == differing(all, target, i as int),
            affected <= i,
        decreases rows@.len() - i,
    {
        assert(all[i as int] == rows@[i as int]@);
        let mut r = rows[i].clone();
        if predicate::row_matches(&rows[i], filter, cx) {
            apply_sets(&mut r, sets);
            if r != rows[i] {
                affected += 1;
            }
        }
        assert(r@ == target[i as int]);
        let ghost before = out.deep_view();
        out.push(r);
        assert(out.deep_view() =~= before.push(r@));
        assert(target.take(i + 1) =~= target.take(i as int).push(target[i as int]));
        i += 1;
    }
    assert(target.take(i as int) =~= target);
    (out, affected)
}

/// The rows from the `at`-th on after an UPDATE of expressions, and how many of them differ.
pub open spec fn expressed_from(
    rows: Seq<RowModel>,
    s: SchemaModel,
    filter: Option<PredicateModel>,
    list: Seq<AssignmentModel>,
    cx: ContextModel,
    at: int,
    done: Seq<RowModel>,
    affected: nat,
) -> Result<(Seq<RowModel>, nat), Seq<char>>
    decreases rows.len() - at,
{
    if at < 0 || at >= rows.len() {
        Ok((done, affected))
    } else if !predicate::passes(filter, rows[at], cx) {
        expressed_from(rows, s, filter, list, cx, at + 1, done.push(rows[at]), affected)
    } else {
        match values::assigned_from(rows[at], s, list, cx.moment, 0) {
            Err(e) => Err(e),
            Ok(r) => expressed_from(
                rows,
                s,
                filter,
                list,
                cx,
                at + 1,
                done.push(r),
                if r != rows[at] {
                    affected + 1
                } else {
                    affected
                },
            ),
        }
    }
}

pub open spec fn expressed(
    rows: Seq<RowModel>,
    s: SchemaModel,
    filter: Option<PredicateModel>,
    list: Seq<AssignmentModel>,
    cx: ContextModel,
) -> Result<(Seq<RowModel>, nat), Seq<char>> {
    expressed_from(rows, s, filter, list, cx, 0, Seq::empty(), 0)
}

#[verifier::loop_isolation(false)]
pub fn express_image(
    rows: &Vec<Row>,
    s: &TableSchema,
    filter: &Option<RowPredicate>,
    list: &Vec<ExpressionAssignment>,
    cx: &Context,
) -> (r: DbResult<(Vec<Row>, u64)>)
    ensures
        match r {
            Ok(out) => expressed(rows.deep_view(), s@, filter.deep_view(), list.deep_view(), cx@)
                == Ok::<(Seq<RowModel>, nat), Seq<char>>((out.0.deep_view(), out.1 as nat)),
            Err(e) => expressed(rows.deep_view(), s@, filter.deep_view(), list.deep_view(), cx@)
                == Err::<(Seq<RowModel>, nat), Seq<char>>(e.message@),
        },
{
    let ghost all = rows.deep_view();
    let ghost whole = expressed(all, s@, filter.deep_view(), list.deep_view(), cx@);
    let mut out: Vec<Row> = Vec::new();
    let mut affected: u64 = 0;
    let mut i: usize = 0;
    assert(out.deep_view() =~= Seq::empty());
    while i < rows.len()
        invariant
            i <= rows@.len(),
            all == rows.deep_view(),
            affected <= i,
            expressed_from(
                all,
                s@,
                filter.deep_view(),
                list.deep_view(),
                cx@,
                i as int,
                out.deep_view(),
                affected as nat,
            ) == whole,
        decreases rows@.len() - i,
    {
        assert(all[i as int] == rows@[i as int]@);
        let mut r = rows[i].clone();
        if predicate::row_matches(&rows[i], filter, cx) {
            match values::apply_expression_assignments_at(&mut r, s, list, &cx.moment) {
                Err(e) => {
                    return Err(e);
                },
                Ok(_) => {},
            }
            if r != rows[i] {
                affected += 1;
            }
        }
        let ghost before = out.deep_view();
        out.push(r);
        assert(out.deep_view() =~= before.push(r@));
        i += 1;
    }
    Ok((out, affected))
}

// ---------------------------------------------------------------------------------------------
// DELETE
// ---------------------------------------------------------------------------------------------
pub open spec fn kept_fn(filter: Option<PredicateModel>, cx: ContextModel) -> spec_fn(
    RowModel,
) -> bool {
    |r: RowModel| !predicate::passes(filter, r, cx)
}

/// The rows that a DELETE leaves.
pub open spec fn kept(rows: Seq<RowModel>, filter: Option<PredicateModel>, cx: ContextModel) -> Seq<
    RowModel,
> {
    rows.filter(kept_fn(filter, cx))
}

pub fn delete_image(rows: &Vec<Row>, filter: &Option<RowPredicate>, cx: &Context) -> (r: Vec<Row>)
    ensures
        r.deep_view() == kept(rows.deep_view(), filter.deep_view(), cx@),
        r@.len() <= rows@.len(),
{
    let ghost all = rows.deep_view();
    let ghost p = kept_fn(filter.deep_view(), cx@);
    let mut out: Vec<Row> = Vec::new();
    let mut i: usize = 0;
    assert(all.take(0).filter(p) =~= Seq::empty()) by {
        reveal(Seq::filter);
    }
    assert(out.deep_view() =~= Seq::empty());
    while i < rows.len()
        invariant
            i <= rows@.len(),
            all == rows.deep_view(),
            p == kept_fn(filter.deep_view(), cx@),
            out.deep_view() == all.take(i as int).filter(p),
            out@.len() <= i,
        decreases rows@.len() - i,
    {
        proof {
            seqs::filter_step(all, i as int, p);
            assert(all[i as int] == rows@[i as int]@);
        }
        let ghost before = out.deep_view();
        if !predicate::row_matches(&rows[i], filter, cx) {
            let copy = rows[i].clone();
            out.push(copy);
            assert(out.deep_view() =~= before.push(all[i as int]));
        }
        i += 1;
    }
    assert(all.take(i as int) =~= all);
    out
}

/// After a DELETE no row is left that its filter lets pass, and every other row is.
pub proof fn deleted_rows_are_gone(
    rows: Seq<RowModel>,
    filter: Option<PredicateModel>,
    cx: ContextModel,
)
    ensures
        forall|i: int|
            0 <= i < kept(rows, filter, cx).len() ==> !predicate::passes(
                filter,
                #[trigger] kept(rows, filter, cx)[i],
                cx,
            ),
        forall|i: int|
            0 <= i < rows.len() && !predicate::passes(filter, #[trigger] rows[i], cx) ==> kept(
                rows,
                filter,
                cx,
            ).contains(rows[i]),
{
    let p = kept_fn(filter, cx);
    assert forall|i: int| 0 <= i < kept(rows, filter, cx).len() implies !predicate::passes(
        filter,
        #[trigger] kept(rows, filter, cx)[i],
        cx,
    ) by {
        rows.lemma_filter_pred(p, i);
        assert(p(kept(rows, filter, cx)[i]));
    }
    assert forall|i: int|
        0 <= i < rows.len() && !predicate::passes(filter, #[trigger] rows[i], cx) implies kept(
        rows,
        filter,
        cx,
    ).contains(rows[i]) by {
        assert(p(rows[i]));
        rows.lemma_filter_contains(p, i);
    }
}

// ---------------------------------------------------------------------------------------------
// INSERT ... ON DUPLICATE KEY UPDATE
// ---------------------------------------------------------------------------------------------
/// The first row, from the `at`-th on, that shares a key with a row.
pub open spec fn sharing_from(
    rows: Seq<RowModel>,
    r: RowModel,
    keys: Seq<KeyModel>,
    at: int,
) -> Option<int>
    decreases rows.len() - at,
{
    if at < 0 || at >= rows.len() {
        None
    } else if commands::share_key(r, rows[at], keys) {
        Some(at)
    } else {
        sharing_from(rows, r, keys, at + 1)
    }
}

pub fn find_sharing(rows: &Vec<Row>, r: &Row, keys: &Vec<KeyConstraint>) -> (res: Option<usize>)
    ensures
        res is Some == sharing_from(rows.deep_view(), r@, keys.deep_view(), 0) is Some,
        res matches Some(i) ==> i < rows@.len() && sharing_from(
            rows.deep_view(),
            r@,
            keys.deep_view(),
            0,
        ) == Some(i as int),
{
    let ghost all = rows.deep_view();
    let mut i: usize = 0;
    while i < rows.len()
        invariant
            i <= rows@.len(),
            all == rows.deep_view(),
            sharing_from(all, r@, keys.deep_view(), i as int) == sharing_from(
                all,
                r@,
                keys.deep_view(),
                0,
            ),
        decreases rows@.len() - i,
    {
        assert(all[i as int] == rows@[i as int]@);
        if commands::rows_share_key(r, &rows[i], keys) {
            return Some(i);
        }
        i += 1;
    }
    None
}

/// A row with the columns from the `at`-th on taken over from another.
pub open spec fn taken_from(
    r: RowModel,
    other: RowModel,
    columns: Seq<Seq<char>>,
    at: int,
) -> RowModel
    decreases columns.len() - at,
{
    if at < 0 || at >= columns.len() {
        r
    } else {
        taken_from(
            if other.is_null(columns[at]) {
                r.with_null(columns[at])
            } else {
                match other.get(columns[at]) {
                    Some(value) => r.with(columns[at], value),
                    None => r,
                }
            },
            other,
            columns,
            at + 1,
        )
    }
}

pub fn take_columns(r: &mut Row, other: &Row, columns: &Vec<String>)
    ensures
        final(r)@ == taken_from(old(r)@, other@, columns.deep_view(), 0),
{
    let ghost names = columns.deep_view();
    let ghost whole = taken_from(r@, other@, names, 0);
    let mut i: usize = 0;
    while i < columns.len()
        invariant
            i <= columns@.len(),
            names == columns.deep_view(),
            taken_from(r@, other@, names, i as int) == whole,
        decreases columns@.len() - i,
    {
        assert(names[i as int] == columns@[i as int]@);
        if other.is_null(columns[i].as_str()) {
            r.set_null(columns[i].as_str());
        } else {
            match other.get(columns[i].as_str()) {
                Some(value) => {
                    r.set(columns[i].as_str(), text::copy_bytes(value));
                },
                None => {},
            }
        }
        i += 1;
    }
}

/// What an upsert has come to: the rows, those of them that are new, how many count as affected,
/// and whether an old row changed.
#[verifier::ext_equal]
pub struct UpsertModel {
    pub rows: Seq<RowModel>,
    pub inserts: Seq<RowModel>,
    pub affected: u64,
    pub changed: bool,
}

pub struct Upserted {
    pub rows: Vec<Row>,
    pub inserts: Vec<Row>,
    pub affected: u64,
    pub changed: bool,
}

impl View for Upserted {
    type V = UpsertModel;

    open spec fn view(&self) -> UpsertModel {
        UpsertModel {
            rows: self.rows.deep_view(),
            inserts: self.inserts.deep_view(),
            affected: self.affected,
            changed: self.changed,
        }
    }
}

impl DeepView for Upserted {
    type V = UpsertModel;

    open spec fn deep_view(&self) -> UpsertModel {
        self@
    }
}

/// The rows from the `at`-th on put in: a new row counts one, a changed row two.
pub open spec fn upserted_from(
    state: UpsertModel,
    incoming: Seq<RowModel>,
    s: SchemaModel,
    columns: Seq<Seq<char>>,
    ignore: bool,
    at: int,
) -> Result<UpsertModel, Seq<char>>
    decreases incoming.len() - at,
{
    if at < 0 || at >= incoming.len() {
        Ok(state)
    } else {
        let r = incoming[at];
        match sharing_from(state.rows, r, schema::keys(s), 0) {
            None => upserted_from(
                UpsertModel {
                    rows: state.rows.push(r),
                    inserts: state.inserts.push(r),
                    affected: state.affected.saturating_add(1),
                    changed: state.changed,
                },
                incoming,
                s,
                columns,
                ignore,
                at + 1,
            ),
            Some(i) => if ignore {
                upserted_from(state, incoming, s, columns, ignore, at + 1)
            } else {
                match crate::alter::missing_from(s.columns, columns, 0) {
                    Some(name) => Err(schema::unknown_column(name)),
                    None => {
                        let after = taken_from(state.rows[i], r, columns, 0);
                        upserted_from(
                            if after != state.rows[i] {
                                UpsertModel {
                                    rows: state.rows.update(i, after),
                                    inserts: state.inserts,
                                    affected: state.affected.saturating_add(2),
                                    changed: true,
                                }
                            } else {
                                state
                            },
                            incoming,
                            s,
                            columns,
                            ignore,
                            at + 1,
                        )
                    },
                }
            },
        }
    }
}

pub open spec fn upserted(
    rows: Seq<RowModel>,
    incoming: Seq<RowModel>,
    s: SchemaModel,
    columns: Seq<Seq<char>>,
    ignore: bool,
) -> Result<UpsertModel, Seq<char>> {
    upserted_from(
        UpsertModel { rows: rows, inserts: Seq::empty(), affected: 0, changed: false },
        incoming,
        s,
        columns,
        ignore,
        0,
    )
}

#[verifier::loop_isolation(false)]
pub fn upsert_image(
    rows: &Vec<Row>,
    incoming: &Vec<Row>,
    s: &TableSchema,
    columns: &Vec<String>,
    ignore: bool,
) -> (r: DbResult<Upserted>)
    ensures
        error::outcome(r) == upserted(
            rows.deep_view(),
            incoming.deep_view(),
            s@,
            columns.deep_view(),
            ignore,
        ),
{
    let ghost all = incoming.deep_view();
    let ghost names = columns.deep_view();
    let ghost whole = upserted(rows.deep_view(), all, s@, names, ignore);
    let keys = schema::key_constraints(s);
    let mut state = Upserted {
        rows: commands::copy_rows(rows),
        inserts: Vec::new(),
        affected: 0,
        changed: false,
    };
    assert(state.inserts.deep_view() =~= Seq::empty());
    let mut i: usize = 0;
    while i < incoming.len()
        invariant
            i <= incoming@.len(),
            all == incoming.deep_view(),
            keys.deep_view() == schema::keys(s@),
            upserted_from(state@, all, s@, names, ignore, i as int) == whole,
        decreases incoming@.len() - i,
    {
        let ghost before = state@;
        assert(all[i as int] == incoming@[i as int]@);
        match find_sharing(&state.rows, &incoming[i], &keys) {
            None => {
                let one = incoming[i].clone();
                state.rows.push(one);
                assert(state.rows.deep_view() =~= before.rows.push(all[i as int]));
                let two = incoming[i].clone();
                state.inserts.push(two);
                assert(state.inserts.deep_view() =~= before.inserts.push(all[i as int]));
                state.affected = state.affected.saturating_add(1);
            },
            Some(k) => {
                if !ignore {
                    match crate::alter::check_columns(&s.columns, columns) {
                        Err(e) => {
                            return Err(e);
                        },
                        Ok(_) => {},
                    }
                    let mut r = state.rows[k].clone();
                    take_columns(&mut r, &incoming[i], columns);
                    if r != state.rows[k] {
                        let ghost model = r@;
                        state.rows.set(k, r);
                        assert(state.rows.deep_view() =~= before.rows.update(k as int, model));
                        state.affected = state.affected.saturating_add(2);
                        state.changed = true;
                    }
                }
            },
        }
        i += 1;
    }
    Ok(state)
}

// ---------------------------------------------------------------------------------------------
// AUTO_INCREMENT
// ---------------------------------------------------------------------------------------------
/// The number that bytes spell.
pub open spec fn number_in(b: Seq<u8>) -> Option<nat> {
    if valid_utf8(b) {
        num::parsed(decode_utf8(b), u64::MAX as nat)
    } else {
        None
    }
}

/// Why bytes spell no number.
pub open spec fn number_fault(b: Seq<u8>) -> Seq<char> {
    if valid_utf8(b) {
        num::fault(decode_utf8(b), 10, u64::MAX as nat)
    } else {
        text::utf8_fault(b)
    }
}

pub fn number_of_bytes(b: &[u8]) -> (r: DbResult<u64>)
    ensures
        match r {
            Ok(n) => number_in(b@) == Some(n as nat),
            Err(e) => number_in(b@) is None && e.message@ == number_fault(b@),
        },
{
    match text::utf8_text(b) {
        Ok(s) => match num::parse_u64(s, u64::MAX) {
            Some(n) => Ok(n),
            None => Err(DbError::new(num::fault_text(s, 10, u64::MAX))),
        },
        Err(e) => Err(DbError::new(e)),
    }
}

/// Whether a row leaves its number to the table.
pub open spec fn wants_number(r: RowModel, column: Seq<char>) -> bool {
    !r.contains(column) || r.is_null(column) || r.get(column) == Some(seq![0x30u8])
}

/// Rows with the numbers that they left to the table, the first number generated, and the next.
#[verifier::ext_equal]
pub struct NumberedModel {
    pub rows: Seq<RowModel>,
    pub last: u64,
    pub next: Option<u64>,
}

pub struct Numbered {
    pub rows: Vec<Row>,
    pub last: u64,
    pub next: Option<u64>,
}

impl View for Numbered {
    type V = NumberedModel;

    open spec fn view(&self) -> NumberedModel {
        NumberedModel { rows: self.rows.deep_view(), last: self.last, next: self.next }
    }
}

impl DeepView for Numbered {
    type V = NumberedModel;

    open spec fn deep_view(&self) -> NumberedModel {
        self@
    }
}

pub open spec fn larger(a: u64, b: u64) -> u64 {
    if a >= b {
        a
    } else {
        b
    }
}

pub open spec fn numbered_from(
    rows: Seq<RowModel>,
    column: Seq<char>,
    at: int,
    done: Seq<RowModel>,
    last: u64,
    next: u64,
) -> Result<NumberedModel, Seq<char>>
    decreases rows.len() - at,
{
    if at < 0 || at >= rows.len() {
        Ok(NumberedModel { rows: done, last: last, next: Some(next) })
    } else if wants_number(rows[at], column) {
        if next == u64::MAX {
            Err("AUTO_INCREMENT overflow"@)
        } else {
            numbered_from(
                rows,
                column,
                at + 1,
                done.push(rows[at].with(column, encode_utf8(num::decimal(next as nat)))),
                if last == 0 {
                    next
                } else {
                    last
                },
                (next + 1) as u64,
            )
        }
    } else {
        match rows[at].get(column) {
            None => numbered_from(rows, column, at + 1, done.push(rows[at]), last, next),
            Some(value) => match number_in(value) {
                None => Err(number_fault(value)),
                Some(n) => numbered_from(
                    rows,
                    column,
                    at + 1,
                    done.push(rows[at]),
                    last,
                    larger(next, (n as u64).saturating_add(1)),
                ),
            },
        }
    }
}

/// Rows numbered by their table, which counts from `next`.
pub open spec fn numbered(s: SchemaModel, next: Option<u64>, rows: Seq<RowModel>) -> Result<
    NumberedModel,
    Seq<char>,
> {
    match sqltext::auto_increment(s) {
        None => Ok(NumberedModel { rows: rows, last: 0, next: None }),
        Some(column) => numbered_from(
            rows,
            column,
            0,
            Seq::empty(),
            0,
            match next {
                Some(n) => n,
                None => 1,
            },
        ),
    }
}

/// The number that a row has in a column.
pub open spec fn number_at(r: RowModel, column: Seq<char>) -> Option<nat> {
    match r.get(column) {
        Some(value) => number_in(value),
        None => None,
    }
}

proof fn numbers_ascend(
    rows: Seq<RowModel>,
    column: Seq<char>,
    at: int,
    done: Seq<RowModel>,
    last: u64,
    next: u64,
)
    requires
        0 <= at <= rows.len(),
        done.len() == at,
        numbered_from(rows, column, at, done, last, next) is Ok,
    ensures
        ({
            let n = numbered_from(rows, column, at, done, last, next)->Ok_0;
            &&& n.rows.len() == rows.len()
            &&& n.next matches Some(end) && next <= end
            &&& forall|i: int| 0 <= i < at ==> #[trigger] n.rows[i] == done[i]
            &&& forall|i: int|
                at <= i < rows.len() && wants_number(rows[i], column) ==> (number_at(
                    #[trigger] n.rows[i],
                    column,
                ) matches Some(k) && next <= k < n.next->0)
            &&& forall|i: int, j: int|
                at <= i < j < rows.len() && wants_number(rows[i], column) && wants_number(
                    rows[j],
                    column,
                ) ==> number_at(#[trigger] n.rows[i], column)->0 < number_at(
                    #[trigger] n.rows[j],
                    column,
                )->0
        }),
    decreases rows.len() - at,
{
    if at < rows.len() {
        if wants_number(rows[at], column) {
            let value = encode_utf8(num::decimal(next as nat));
            let r = rows[at].with(column, value);
            row::set_then_get(rows[at], column, value, column);
            encode_utf8_valid_utf8(num::decimal(next as nat));
            encode_utf8_decode_utf8(num::decimal(next as nat));
            num::parsed_decimal(next as nat, u64::MAX as nat);
            assert(number_at(r, column) == Some(next as nat));
            numbers_ascend(
                rows,
                column,
                at + 1,
                done.push(r),
                if last == 0 {
                    next
                } else {
                    last
                },
                (next + 1) as u64,
            );
        } else {
            match rows[at].get(column) {
                None => {
                    numbers_ascend(rows, column, at + 1, done.push(rows[at]), last, next);
                },
                Some(value) => {
                    let n = number_in(value)->0;
                    numbers_ascend(
                        rows,
                        column,
                        at + 1,
                        done.push(rows[at]),
                        last,
                        larger(next, (n as u64).saturating_add(1)),
                    );
                },
            }
        }
    }
}

/// A table gives a number once: the numbers that it gives to rows ascend, from where it counts up
/// to where it counts on, so that no later row gets one of them.
pub proof fn numbers_are_given_once(s: SchemaModel, next: Option<u64>, rows: Seq<RowModel>)
    requires
        sqltext::auto_increment(s) is Some,
        numbered(s, next, rows) is Ok,
    ensures
        ({
            let column = sqltext::auto_increment(s)->0;
            let n = numbered(s, next, rows)->Ok_0;
            let start = match next {
                Some(x) => x,
                None => 1u64,
            };
            &&& n.rows.len() == rows.len()
            &&& n.next matches Some(end) && start <= end
            &&& forall|i: int|
                0 <= i < rows.len() && wants_number(rows[i], column) ==> (number_at(
                    #[trigger] n.rows[i],
                    column,
                ) matches Some(k) && start <= k < n.next->0)
            &&& forall|i: int, j: int|
                0 <= i < j < rows.len() && wants_number(rows[i], column) && wants_number(
                    rows[j],
                    column,
                ) ==> number_at(#[trigger] n.rows[i], column)->0 < number_at(
                    #[trigger] n.rows[j],
                    column,
                )->0
        }),
{
    let start = match next {
        Some(x) => x,
        None => 1u64,
    };
    numbers_ascend(rows, sqltext::auto_increment(s)->0, 0, Seq::empty(), 0, start);
}

#[verifier::loop_isolation(false)]
pub fn assign_auto_increment_rows(s: &TableSchema, next_id: Option<u64>, rows: &Vec<Row>) -> (r:
    DbResult<Numbered>)
    ensures
        error::outcome(r) == numbered(s@, next_id, rows.deep_view()),
{
    let column = match sqltext::auto_increment_column(s) {
        None => {
            return Ok(Numbered { rows: commands::copy_rows(rows), last: 0, next: None });
        },
        Some(c) => c,
    };
    let ghost all = rows.deep_view();
    let ghost whole = numbered(s@, next_id, all);
    let mut next: u64 = match next_id {
        Some(n) => n,
        None => 1,
    };
    let mut last: u64 = 0;
    let mut out: Vec<Row> = Vec::new();
    let mut i: usize = 0;
    assert(out.deep_view() =~= Seq::empty());
    while i < rows.len()
        invariant
            i <= rows@.len(),
            all == rows.deep_view(),
            numbered_from(all, column@, i as int, out.deep_view(), last, next) == whole,
        decreases rows@.len() - i,
    {
        assert(all[i as int] == rows@[i as int]@);
        let name = column.as_str();
        let mut r = rows[i].clone();
        let ghost before = out.deep_view();
        let zero = match rows[i].get(name) {
            Some(value) => {
                assert(value@.len() == 1 && value@[0] == 0x30 ==> value@ =~= seq![0x30u8]);
                value.len() == 1 && value[0] == 0x30
            },
            None => false,
        };
        let generate = !rows[i].contains(name) || rows[i].is_null(name) || zero;
        assert(generate == wants_number(all[i as int], column@));
        if generate {
            if next == u64::MAX {
                return Err(DbError::of("AUTO_INCREMENT overflow"));
            }
            if last == 0 {
                last = next;
            }
            let digits = num::u64_text(next);
            r.set(name, text::text_bytes(digits.as_str()));
            next = next + 1;
        } else {
            match rows[i].get(name) {
                Some(value) => match number_of_bytes(value) {
                    Err(e) => {
                        return Err(e);
                    },
                    Ok(n) => {
                        let behind: u64 = n.saturating_add(1);
                        if behind > next {
                            next = behind;
                        }
                    },
                },
                None => {},
            }
        }
        out.push(r);
        assert(out.deep_view() =~= before.push(r@));
        i += 1;
    }
    Ok(Numbered { rows: out, last: last, next: Some(next) })
}

/// The largest number that rows have in a column.
pub open spec fn largest(rows: Seq<RowModel>, column: Seq<char>) -> u64
    decreases rows.len(),
{
    if rows.len() == 0 {
        0
    } else {
        let rest = largest(rows.drop_last(), column);
        match rows.last().get(column) {
            None => rest,
            Some(value) => match number_in(value) {
                None => rest,
                Some(n) => larger(rest, n as u64),
            },
        }
    }
}

/// Where a table counts on, given its rows and where it counted before.
pub open spec fn counting(s: SchemaModel, next: Option<u64>, rows: Seq<RowModel>) -> Option<u64> {
    match sqltext::auto_increment(s) {
        None => None,
        Some(column) => {
            let behind = larger(largest(rows, column).saturating_add(1), 1);
            Some(
                match next {
                    Some(n) => larger(n, behind),
                    None => behind,
                },
            )
        },
    }
}

pub fn count_on(s: &TableSchema, next_id: Option<u64>, rows: &Vec<Row>) -> (r: Option<u64>)
    ensures
        r == counting(s@, next_id, rows.deep_view()),
{
    let column = match sqltext::auto_increment_column(s) {
        None => {
            return None;
        },
        Some(c) => c,
    };
    let ghost all = rows.deep_view();
    let mut most: u64 = 0;
    let mut i: usize = 0;
    while i < rows.len()
        invariant
            i <= rows@.len(),
            all == rows.deep_view(),
            most == largest(all.take(i as int), column@),
        decreases rows@.len() - i,
    {
        proof {
            assert(all.take(i + 1).drop_last() =~= all.take(i as int));
            assert(all.take(i + 1).last() == rows@[i as int]@);
        }
        match rows[i].get(column.as_str()) {
            None => {},
            Some(value) => match number_of_bytes(value) {
                Err(_) => {},
                Ok(n) => {
                    if n > most {
                        most = n;
                    }
                },
            },
        }
        i += 1;
    }
    assert(all.take(i as int) =~= all);
    let mut behind: u64 = most.saturating_add(1);
    if behind < 1 {
        behind = 1;
    }
    match next_id {
        Some(n) => {
            if n >= behind {
                Some(n)
            } else {
                Some(behind)
            }
        },
        None => Some(behind),
    }
}

} // verus!
