//! What the check of a batch comes to: which keys it refuses, and what one command leaves for the
//! commands behind it.
use crate::alter;
use crate::assoc;
use crate::batch;
use crate::commands;
use crate::commands::{CommandModel, SetModel};
use crate::database;
use crate::dmlcheck;
use crate::images;
use crate::index;
use crate::pairs;
use crate::predicate;
use crate::predicate::{ContextModel, PredicateModel};
use crate::row::RowModel;
use crate::schema;
use crate::schema::{ColumnModel, KeyModel, SchemaModel};
use crate::store;
use crate::store::StoreModel;
use crate::validate;
use crate::validate::{KeysModel, ShadowModel};
use crate::values;
use crate::values::{AssignmentModel, UpdateModel};
use vstd::prelude::*;

verus! {

// ---------------------------------------------------------------------------------------------
// Keys
// ---------------------------------------------------------------------------------------------
/// Whether no two keys of a table have one name.
pub open spec fn told_apart(keys: Seq<KeyModel>) -> bool {
    forall|i: int, j: int|
        0 <= i < j < keys.len() ==> (#[trigger] keys[i]).name != (#[trigger] keys[j]).name
}

/// Whether a key of a row is taken: a row that counts has it, or the batch has brought it.
pub open spec fn taken(
    keys: KeysModel,
    r: RowModel,
    key: KeyModel,
    d: Seq<char>,
    t: Seq<char>,
    rows: Seq<RowModel>,
) -> bool {
    values::key(r, key.columns) matches Some(k) && (validate::brought(keys, d, t, key.name).contains(k)
        || exists|j: int| 0 <= j < rows.len() && values::key(#[trigger] rows[j], key.columns) == Some(k))
}

/// The rows of a table that still count in a batch.
pub open spec fn counted(sh: ShadowModel, s: StoreModel, d: Seq<char>, t: Seq<char>) -> Seq<RowModel> {
    match store::table_in(s, d, t) {
        Some(found) => if sh.reset_databases.contains(d) || sh.reset_tables.contains((d, t)) {
            Seq::empty()
        } else {
            found.rows()
        },
        None => Seq::empty(),
    }
}

proof fn constraint_is(keys: Seq<KeyModel>, name: Seq<char>, at: int, i: int)
    requires
        0 <= at <= i < keys.len(),
        keys[i].name == name,
        told_apart(keys),
    ensures
        validate::constraint_at(keys, name, at) == Some(i),
    decreases keys.len() - at,
{
    if at < i {
        assert(keys[at].name != keys[i].name);
        constraint_is(keys, name, at + 1, i);
    }
}

/// A stored table holds a key exactly where one of its rows has it.
pub proof fn a_stored_key_is_that_of_a_row(
    s: StoreModel,
    d: Seq<char>,
    t: Seq<char>,
    i: int,
    k: Seq<u8>,
)
    requires
        store::table_in(s, d, t) matches Some(found) && told_apart(schema::keys(found.schema)) && 0
            <= i < schema::keys(found.schema).len(),
    ensures
        ({
            let found = store::table_in(s, d, t)->0;
            let key = schema::keys(found.schema)[i];
            let rows = found.rows();
            validate::key_exists(s, d, t, key.name, k) <==> exists|j: int|
                0 <= j < rows.len() && values::key(#[trigger] rows[j], key.columns) == Some(k)
        }),
{
    let found = store::table_in(s, d, t)->0;
    let keys = schema::keys(found.schema);
    constraint_is(keys, keys[i].name, 0, i);
    index::key_set_means(found.rows(), keys[i].columns, k);
}

proof fn brought_then(
    keys: KeysModel,
    d: Seq<char>,
    t: Seq<char>,
    name: Seq<char>,
    list: Seq<Seq<u8>>,
    e: Seq<char>,
    u: Seq<char>,
    other: Seq<char>,
)
    ensures
        validate::brought(validate::with_brought(keys, d, t, name, list), d, t, name) == list,
        d != e || t != u || name != other ==> validate::brought(
            validate::with_brought(keys, d, t, name, list),
            e,
            u,
            other,
        ) == validate::brought(keys, e, u, other),
{
    let inner = match pairs::pair_value(keys, d, t) {
        None => Seq::empty(),
        Some(found) => found,
    };
    pairs::set_then_pair(keys, d, t, assoc::with_entry(inner, name, list), e, u);
    assoc::set_then_lookup(inner, name, list, other);
    assert(assoc::lookup(Seq::<(Seq<char>, Seq<Seq<u8>>)>::empty(), other) is None);
}

/// The keys of a row are refused exactly where one of them is taken, and otherwise brought; the
/// keys that were brought stay.
pub proof fn keys_added_means(
    keys: KeysModel,
    r: RowModel,
    list: Seq<KeyModel>,
    d: Seq<char>,
    t: Seq<char>,
    stored: bool,
    s: StoreModel,
    at: int,
)
    requires
        0 <= at <= list.len(),
        told_apart(list),
    ensures
        validate::keys_added(keys, r, list, d, t, stored, s, at) is Err <==> exists|i: int|
            at <= i < list.len() && (values::key(r, (#[trigger] list[i]).columns) matches Some(k)
                && (validate::brought(keys, d, t, list[i].name).contains(k) || (stored
                && validate::key_exists(s, d, t, list[i].name, k)))),
        validate::keys_added(keys, r, list, d, t, stored, s, at) matches Ok(next) ==> {
            &&& forall|i: int|
                at <= i < list.len() ==> #[trigger] validate::brought(next, d, t, list[i].name)
                    == match values::key(r, list[i].columns) {
                    Some(k) => validate::brought(keys, d, t, list[i].name).push(k),
                    None => validate::brought(keys, d, t, list[i].name),
                }
            &&& forall|e: Seq<char>, u: Seq<char>, other: Seq<char>|
                (d != e || t != u || forall|i: int|
                    at <= i < list.len() ==> (#[trigger] list[i]).name != other)
                    ==> #[trigger] validate::brought(next, e, u, other) == validate::brought(
                    keys,
                    e,
                    u,
                    other,
                )
        },
    decreases list.len() - at,
{
    if at < list.len() {
        match values::key(r, list[at].columns) {
            None => {
                keys_added_means(keys, r, list, d, t, stored, s, at + 1);
                match validate::keys_added(keys, r, list, d, t, stored, s, at + 1) {
                    Ok(next) => {
                        assert forall|i: int| at <= i < list.len() implies #[trigger] validate::brought(
                            next,
                            d,
                            t,
                            list[i].name,
                        ) == (match values::key(r, list[i].columns) {
                            Some(k) => validate::brought(keys, d, t, list[i].name).push(k),
                            None => validate::brought(keys, d, t, list[i].name),
                        }) by {}
                    },
                    Err(_) => {},
                }
            },
            Some(k) => {
                let known = validate::brought(keys, d, t, list[at].name);
                if (stored && validate::key_exists(s, d, t, list[at].name, k)) || known.contains(k) {
                    assert(list[at].name == list[at].name);
                } else {
                    let more = validate::with_brought(keys, d, t, list[at].name, known.push(k));
                    keys_added_means(more, r, list, d, t, stored, s, at + 1);
                    assert forall|e: Seq<char>, u: Seq<char>, other: Seq<char>|
                        d != e || t != u || list[at].name
                            != other implies #[trigger] validate::brought(more, e, u, other)
                        == validate::brought(keys, e, u, other) by {
                        brought_then(keys, d, t, list[at].name, known.push(k), e, u, other);
                    }
                    brought_then(keys, d, t, list[at].name, known.push(k), d, t, list[at].name);
                    match validate::keys_added(more, r, list, d, t, stored, s, at + 1) {
                        Ok(next) => {
                            assert forall|i: int|
                                at <= i < list.len() implies #[trigger] validate::brought(
                                next,
                                d,
                                t,
                                list[i].name,
                            ) == (match values::key(r, list[i].columns) {
                                Some(k) => validate::brought(keys, d, t, list[i].name).push(k),
                                None => validate::brought(keys, d, t, list[i].name),
                            }) by {
                                if i == at {
                                    assert forall|j: int| at + 1 <= j < list.len() implies (
                                    #[trigger] list[j]).name != list[at].name by {}
                                }
                            }
                        },
                        Err(_) => {},
                    }
                }
            },
        }
    }
}

/// Whether the rows of a stored table that still count have the keys that the batch knows.
pub open spec fn keys_fit(sh: ShadowModel, s: StoreModel, d: Seq<char>, t: Seq<char>) -> bool {
    match store::table_in(s, d, t) {
        Some(found) => sh.reset_databases.contains(d) || sh.reset_tables.contains((d, t)) || (
        validate::schema_in(sh.catalog, d, t) matches Some(sc) && schema::keys(found.schema)
            == schema::keys(sc)),
        None => true,
    }
}

/// Whether the rows of a table can be checked: it has no checks, or its rows are known.
pub open spec fn can_check(sh: ShadowModel, s: StoreModel, d: Seq<char>, t: Seq<char>, sc: SchemaModel) -> bool {
    validate::has_checks(sc) ==> validate::image(sh.checked, sh, s, d, t) is Ok
}

/// An INSERT is refused exactly where a key of its row is taken: by a row that counts, or by one
/// that the batch has brought. One that is not refused brings its keys, and changes nothing else
/// but the rows to be checked.
pub proof fn inserts_are_refused_for_taken_keys(
    sh: ShadowModel,
    d: Seq<char>,
    t: Seq<char>,
    r: RowModel,
    s: StoreModel,
    cx: ContextModel,
    sc: SchemaModel,
    full: RowModel,
)
    requires
        validate::schema_in(sh.catalog, d, t) == Some(sc),
        told_apart(schema::keys(sc)),
        keys_fit(sh, s, d, t),
        can_check(sh, s, d, t, sc),
        values::materialized(r, sc, cx.moment) == Ok::<RowModel, Seq<char>>(full),
    ensures
        ({
            let after = batch::check_command(
                sh,
                CommandModel::Insert { database: d, table: t, row: r },
                s,
                cx,
            );
            &&& after is Err <==> exists|i: int|
                0 <= i < schema::keys(sc).len() && taken(
                    sh.keys,
                    full,
                    #[trigger] schema::keys(sc)[i],
                    d,
                    t,
                    counted(sh, s, d, t),
                )
            &&& after matches Ok(next) ==> {
                &&& next.catalog == sh.catalog
                &&& next.procedures == sh.procedures
                &&& next.altered == sh.altered
                &&& next.reset_databases == sh.reset_databases
                &&& next.reset_tables == sh.reset_tables
                &&& counted(next, s, d, t) == counted(sh, s, d, t)
                &&& forall|i: int|
                    0 <= i < schema::keys(sc).len() ==> #[trigger] validate::brought(
                        next.keys,
                        d,
                        t,
                        schema::keys(sc)[i].name,
                    ) == match values::key(full, schema::keys(sc)[i].columns) {
                        Some(k) => validate::brought(
                            sh.keys,
                            d,
                            t,
                            schema::keys(sc)[i].name,
                        ).push(k),
                        None => validate::brought(sh.keys, d, t, schema::keys(sc)[i].name),
                    }
                &&& forall|e: Seq<char>, u: Seq<char>, other: Seq<char>|
                    d != e || t != u ==> #[trigger] validate::brought(next.keys, e, u, other)
                        == validate::brought(sh.keys, e, u, other)
            }
        }),
{
    reveal(batch::check_command);
    reveal(dmlcheck::insert_step);
    let keys = schema::keys(sc);
    let stored = dmlcheck::stored_counts(sh, d, t);
    keys_added_means(sh.keys, full, keys, d, t, stored, s, 0);
    assert forall|i: int, k: Seq<u8>| 0 <= i < keys.len() implies (stored
        && #[trigger] validate::key_exists(s, d, t, keys[i].name, k)) == (exists|j: int|
        0 <= j < counted(sh, s, d, t).len() && values::key(
            #[trigger] counted(sh, s, d, t)[j],
            keys[i].columns,
        ) == Some(k)) by {
        if stored && store::table_in(s, d, t) is Some {
            a_stored_key_is_that_of_a_row(s, d, t, i, k);
        }
    }
    let added = validate::keys_added(sh.keys, full, keys, d, t, stored, s, 0);
    if added is Err {
        let i = choose|i: int|
            0 <= i < keys.len() && (values::key(full, (#[trigger] keys[i]).columns) matches Some(k)
                && (validate::brought(sh.keys, d, t, keys[i].name).contains(k) || (stored
                && validate::key_exists(s, d, t, keys[i].name, k))));
        let k = values::key(full, keys[i].columns)->0;
        assert(stored && validate::key_exists(s, d, t, keys[i].name, k) ==> exists|j: int|
            0 <= j < counted(sh, s, d, t).len() && values::key(
                #[trigger] counted(sh, s, d, t)[j],
                keys[i].columns,
            ) == Some(k));
        assert(taken(sh.keys, full, keys[i], d, t, counted(sh, s, d, t)));
    }
    if exists|i: int|
        0 <= i < keys.len() && taken(
            sh.keys,
            full,
            #[trigger] keys[i],
            d,
            t,
            counted(sh, s, d, t),
        ) {
        let i = choose|i: int|
            0 <= i < keys.len() && taken(
                sh.keys,
                full,
                #[trigger] keys[i],
                d,
                t,
                counted(sh, s, d, t),
            );
        let k = values::key(full, keys[i].columns)->0;
        assert(stored && validate::key_exists(s, d, t, keys[i].name, k) || validate::brought(
            sh.keys,
            d,
            t,
            keys[i].name,
        ).contains(k));
    }
}

/// Of two INSERTs of one batch that share a key, the later is refused.
pub proof fn a_batch_brings_a_key_once(
    sh: ShadowModel,
    next: ShadowModel,
    d: Seq<char>,
    t: Seq<char>,
    a: RowModel,
    b: RowModel,
    s: StoreModel,
    cx: ContextModel,
    sc: SchemaModel,
    i: int,
)
    requires
        validate::schema_in(sh.catalog, d, t) == Some(sc),
        told_apart(schema::keys(sc)),
        keys_fit(sh, s, d, t),
        can_check(sh, s, d, t, sc),
        batch::check_command(sh, CommandModel::Insert { database: d, table: t, row: a }, s, cx) == Ok::<
            ShadowModel,
            Seq<char>,
        >(next),
        0 <= i < schema::keys(sc).len(),
        values::materialized(a, sc, cx.moment) matches Ok(x) && values::materialized(
            b,
            sc,
            cx.moment,
        ) matches Ok(y) && values::key(x, schema::keys(sc)[i].columns) is Some && values::key(
            x,
            schema::keys(sc)[i].columns,
        ) == values::key(y, schema::keys(sc)[i].columns),
    ensures
        batch::check_command(next, CommandModel::Insert { database: d, table: t, row: b }, s, cx) is Err,
{
    let x = values::materialized(a, sc, cx.moment)->Ok_0;
    let y = values::materialized(b, sc, cx.moment)->Ok_0;
    let keys = schema::keys(sc);
    inserts_are_refused_for_taken_keys(sh, d, t, a, s, cx, sc, x);
    reveal(batch::check_command);
    reveal(dmlcheck::insert_step);
    if validate::has_checks(sc) {
        pairs::set_then_pair(
            sh.checked,
            d,
            t,
            (validate::image(sh.checked, sh, s, d, t)->Ok_0).push(x),
            d,
            t,
        );
    }
    let known = validate::brought(sh.keys, d, t, keys[i].name);
    let k = values::key(x, keys[i].columns)->0;
    assert(validate::brought(next.keys, d, t, keys[i].name) == known.push(k));
    assert(known.push(k)[known.len() as int] == k);
    inserts_are_refused_for_taken_keys(next, d, t, b, s, cx, sc, y);
    assert(taken(next.keys, y, keys[i], d, t, counted(next, s, d, t)));
}

/// Row commands on a table that is not there are refused, and so are rows that it cannot store.
pub proof fn rows_need_their_table(
    sh: ShadowModel,
    d: Seq<char>,
    t: Seq<char>,
    r: RowModel,
    rows: Seq<RowModel>,
    columns: Seq<Seq<char>>,
    filter: Option<PredicateModel>,
    sets: SetModel,
    s: StoreModel,
    cx: ContextModel,
    ignore: bool,
)
    ensures
        validate::schema_in(sh.catalog, d, t) is None ==> {
            &&& batch::check_command(
                sh,
                CommandModel::Insert { database: d, table: t, row: r },
                s,
                cx,
            ) == Err::<ShadowModel, Seq<char>>(database::no_table(t))
            &&& batch::check_command(
                sh,
                CommandModel::Upsert {
                    database: d,
                    table: t,
                    row: r,
                    update_columns: columns,
                    ignore: ignore,
                },
                s,
                cx,
            ) == Err::<ShadowModel, Seq<char>>(database::no_table(t))
            &&& batch::check_command(
                sh,
                CommandModel::Update { database: d, table: t, filter: filter, assignments: sets },
                s,
                cx,
            ) == Err::<ShadowModel, Seq<char>>(database::no_table(t))
            &&& batch::check_command(
                sh,
                CommandModel::Delete { database: d, table: t, filter: filter },
                s,
                cx,
            ) == Err::<ShadowModel, Seq<char>>(database::no_table(t))
        },
        validate::schema_in(sh.catalog, d, t) matches Some(sc) && values::materialized(
            r,
            sc,
            cx.moment,
        ) is Err ==> {
            &&& batch::check_command(
                sh,
                CommandModel::Insert { database: d, table: t, row: r },
                s,
                cx,
            ) is Err
            &&& batch::check_command(
                sh,
                CommandModel::Upsert {
                    database: d,
                    table: t,
                    row: r,
                    update_columns: columns,
                    ignore: ignore,
                },
                s,
                cx,
            ) is Err
        },
{
    reveal(batch::check_command);
    reveal(dmlcheck::insert_step);
    reveal(dmlcheck::upsert_step);
    reveal(dmlcheck::update_step);
    reveal(dmlcheck::delete_step);
}

// ---------------------------------------------------------------------------------------------
// Filters, assignments and images
// ---------------------------------------------------------------------------------------------
proof fn missing_means(columns: Seq<ColumnModel>, names: Seq<Seq<char>>, at: int)
    requires
        0 <= at <= names.len(),
    ensures
        alter::missing_from(columns, names, at) is None <==> forall|i: int|
            at <= i < names.len() ==> schema::has_column(columns, #[trigger] names[i]),
    decreases names.len() - at,
{
    if at < names.len() {
        missing_means(columns, names, at + 1);
    }
}

proof fn sets_fail_means(sets: SetModel, s: SchemaModel, at: int)
    requires
        0 <= at <= sets.len(),
    ensures
        dmlcheck::sets_fail(sets, s, at) is None <==> forall|i: int|
            at <= i < sets.len() ==> sets_fit(#[trigger] sets[i], s),
    decreases sets.len() - at,
{
    if at < sets.len() {
        sets_fail_means(sets, s, at + 1);
        if forall|i: int| at <= i < sets.len() ==> sets_fit(#[trigger] sets[i], s) {
            assert(sets_fit(sets[at], s));
        }
    }
}

/// Whether an assignment fits a table: it names a column, and sets no column to NULL that must not
/// be.
pub open spec fn sets_fit(set: (Seq<char>, Option<Seq<u8>>), s: SchemaModel) -> bool {
    schema::has_column(s.columns, set.0) && (set.1 is None ==> !dmlcheck::forbids_null(
        s.columns,
        set.0,
    ))
}

/// Whether a filter names columns of a table only.
pub open spec fn filter_reads(filter: Option<PredicateModel>, s: SchemaModel) -> bool {
    filter matches Some(p) ==> forall|i: int|
        0 <= i < predicate::predicate_columns(p).len() ==> schema::has_column(
            s.columns,
            #[trigger] predicate::predicate_columns(p)[i],
        )
}

/// In a table without checks an UPDATE is refused exactly where an assignment does not fit, or the
/// filter names a column that is not there; a DELETE, where the filter does. Neither changes what
/// the batch has come to.
pub proof fn filters_and_assignments_name_columns(
    sh: ShadowModel,
    d: Seq<char>,
    t: Seq<char>,
    filter: Option<PredicateModel>,
    sets: SetModel,
    s: StoreModel,
    cx: ContextModel,
    sc: SchemaModel,
)
    requires
        validate::schema_in(sh.catalog, d, t) == Some(sc),
    ensures
        ({
            let update = batch::check_command(
                sh,
                CommandModel::Update { database: d, table: t, filter: filter, assignments: sets },
                s,
                cx,
            );
            let delete = batch::check_command(
                sh,
                CommandModel::Delete { database: d, table: t, filter: filter },
                s,
                cx,
            );
            let fit = forall|i: int| 0 <= i < sets.len() ==> sets_fit(#[trigger] sets[i], sc);
            &&& !fit || !filter_reads(filter, sc) ==> update is Err
            &&& !filter_reads(filter, sc) ==> delete is Err
            &&& !validate::has_checks(sc) && fit && filter_reads(filter, sc) ==> update == Ok::<
                ShadowModel,
                Seq<char>,
            >(sh)
            &&& !validate::has_checks(sc) && filter_reads(filter, sc) ==> delete == Ok::<
                ShadowModel,
                Seq<char>,
            >(sh)
        }),
{
    reveal(batch::check_command);
    reveal(dmlcheck::update_step);
    reveal(dmlcheck::delete_step);
    sets_fail_means(sets, sc, 0);
    match filter {
        Some(p) => {
            missing_means(sc.columns, predicate::predicate_columns(p), 0);
        },
        None => {},
    }
}

/// A batch looks at the stored rows of a table with checks until it changes them: an INSERT adds a
/// row behind them, and a DELETE leaves those that its filter does not take.
pub proof fn checked_rows_are_kept_up(
    sh: ShadowModel,
    d: Seq<char>,
    t: Seq<char>,
    r: RowModel,
    filter: Option<PredicateModel>,
    s: StoreModel,
    cx: ContextModel,
    sc: SchemaModel,
    rows: Seq<RowModel>,
)
    requires
        validate::schema_in(sh.catalog, d, t) == Some(sc),
        validate::has_checks(sc),
        validate::image(sh.checked, sh, s, d, t) == Ok::<Seq<RowModel>, Seq<char>>(rows),
    ensures
        batch::check_command(
            sh,
            CommandModel::Insert { database: d, table: t, row: r },
            s,
            cx,
        ) matches Ok(next) ==> (values::materialized(r, sc, cx.moment) matches Ok(full)
            && validate::image(next.checked, next, s, d, t) == Ok::<Seq<RowModel>, Seq<char>>(
            rows.push(full),
        )),
        batch::check_command(
            sh,
            CommandModel::Delete { database: d, table: t, filter: filter },
            s,
            cx,
        ) matches Ok(next) ==> validate::image(next.checked, next, s, d, t) == Ok::<
            Seq<RowModel>,
            Seq<char>,
        >(rows.filter(|x: RowModel| !predicate::passes(filter, x, cx))),
{
    reveal(batch::check_command);
    reveal(dmlcheck::insert_step);
    reveal(dmlcheck::delete_step);
    let left = images::kept(rows, filter, cx);
    pairs::set_then_pair(sh.checked, d, t, left, d, t);
    assert(images::kept_fn(filter, cx) =~= (|x: RowModel| !predicate::passes(filter, x, cx)));
    match values::materialized(r, sc, cx.moment) {
        Ok(full) => {
            pairs::set_then_pair(sh.checked, d, t, rows.push(full), d, t);
        },
        Err(_) => {},
    }
}

proof fn sets_checked_means(
    rows: Seq<RowModel>,
    filter: Option<PredicateModel>,
    sets: SetModel,
    s: SchemaModel,
    cx: ContextModel,
    at: int,
    done: Seq<RowModel>,
)
    requires
        0 <= at <= rows.len(),
        done.len() == at,
    ensures
        dmlcheck::sets_checked(rows, filter, sets, s, cx, at, done) is Err <==> exists|i: int|
            at <= i < rows.len() && predicate::passes(filter, #[trigger] rows[i], cx)
                && values::materialized(images::set_from(rows[i], sets, 0), s, cx.moment) is Err,
        dmlcheck::sets_checked(rows, filter, sets, s, cx, at, done) matches Ok(after) ==> {
            &&& after.len() == rows.len()
            &&& forall|i: int| 0 <= i < at ==> (#[trigger] after[i]) == done[i]
            &&& forall|i: int|
                at <= i < rows.len() ==> if predicate::passes(filter, rows[i], cx) {
                    values::materialized(images::set_from(rows[i], sets, 0), s, cx.moment) == Ok::<
                        RowModel,
                        Seq<char>,
                    >(#[trigger] after[i])
                } else {
                    after[i] == rows[i]
                }
        },
    decreases rows.len() - at,
{
    if at < rows.len() {
        if !predicate::passes(filter, rows[at], cx) {
            sets_checked_means(rows, filter, sets, s, cx, at + 1, done.push(rows[at]));
        } else {
            match values::materialized(images::set_from(rows[at], sets, 0), s, cx.moment) {
                Err(_) => {
                    assert(rows[at] == rows[at]);
                },
                Ok(r) => {
                    sets_checked_means(rows, filter, sets, s, cx, at + 1, done.push(r));
                },
            }
        }
        let step = if !predicate::passes(filter, rows[at], cx) {
            rows[at]
        } else {
            match values::materialized(images::set_from(rows[at], sets, 0), s, cx.moment) {
                Err(_) => rows[at],
                Ok(r) => r,
            }
        };
        match dmlcheck::sets_checked(rows, filter, sets, s, cx, at, done) {
            Ok(after) => {
                assert(after[at] == done.push(step)[at]);
                assert forall|i: int| 0 <= i < at implies (#[trigger] after[i]) == done[i] by {
                    assert(after[i] == done.push(step)[i]);
                }
            },
            Err(_) => {},
        }
    }
}

/// An UPDATE of a table with checks is refused where a row that it takes could not be stored with
/// what is assigned to it. Otherwise the rows it takes are changed, and the others stay.
pub proof fn checked_updates_are_tried_on_the_rows(
    sh: ShadowModel,
    d: Seq<char>,
    t: Seq<char>,
    filter: Option<PredicateModel>,
    sets: SetModel,
    s: StoreModel,
    cx: ContextModel,
    sc: SchemaModel,
    rows: Seq<RowModel>,
)
    requires
        validate::schema_in(sh.catalog, d, t) == Some(sc),
        validate::has_checks(sc),
        validate::image(sh.checked, sh, s, d, t) == Ok::<Seq<RowModel>, Seq<char>>(rows),
        forall|i: int| 0 <= i < sets.len() ==> sets_fit(#[trigger] sets[i], sc),
        filter_reads(filter, sc),
    ensures
        ({
            let after = batch::check_command(
                sh,
                CommandModel::Update { database: d, table: t, filter: filter, assignments: sets },
                s,
                cx,
            );
            &&& after is Err <==> exists|i: int|
                0 <= i < rows.len() && predicate::passes(filter, #[trigger] rows[i], cx)
                    && values::materialized(images::set_from(rows[i], sets, 0), sc, cx.moment) is Err
            &&& after matches Ok(next) ==> (validate::image(next.checked, next, s, d, t) matches Ok(
                changed,
            ) && changed.len() == rows.len() && forall|i: int|
                0 <= i < rows.len() ==> if predicate::passes(filter, rows[i], cx) {
                    values::materialized(images::set_from(rows[i], sets, 0), sc, cx.moment) == Ok::<
                        RowModel,
                        Seq<char>,
                    >(#[trigger] changed[i])
                } else {
                    changed[i] == rows[i]
                })
        }),
{
    reveal(batch::check_command);
    reveal(dmlcheck::update_step);
    sets_fail_means(sets, sc, 0);
    match filter {
        Some(p) => {
            missing_means(sc.columns, predicate::predicate_columns(p), 0);
        },
        None => {},
    }
    sets_checked_means(rows, filter, sets, sc, cx, 0, Seq::empty());
    match dmlcheck::sets_checked(rows, filter, sets, sc, cx, 0, Seq::empty()) {
        Ok(after) => {
            pairs::set_then_pair(sh.checked, d, t, after, d, t);
        },
        Err(_) => {},
    }
}

/// The rows that a batch sees of a table are those that it has made of it; before it has made any,
/// the stored ones, and none where the stored ones no longer count.
pub proof fn a_batch_sees_these_rows(
    rows: Seq<RowModel>,
    seen: validate::ImagesModel,
    sh: ShadowModel,
    s: StoreModel,
    d: Seq<char>,
    t: Seq<char>,
)
    ensures
        validate::image(pairs::with_pair(seen, d, t, rows), sh, s, d, t) == Ok::<
            Seq<RowModel>,
            Seq<char>,
        >(rows),
        validate::image(pairs::without_pair(seen, d, t), sh, s, d, t) == (if sh.reset_databases.contains(
            d,
        ) || sh.reset_tables.contains((d, t)) {
            Ok::<Seq<RowModel>, Seq<char>>(Seq::empty())
        } else {
            match store::table_in(s, d, t) {
                Some(found) => Ok(found.rows()),
                None => match store::database_of(s, d) {
                    Some(_) => Err(database::no_table(t)),
                    None => Err(store::unknown_database(d)),
                },
            }
        }),
{
    pairs::set_then_pair(seen, d, t, rows, d, t);
    pairs::removed_then_pair(seen, d, t, d, t);
}

proof fn conflicting_is(rows: Seq<RowModel>, r: RowModel, s: SchemaModel, at: int)
    requires
        0 <= at <= rows.len(),
    ensures
        dmlcheck::conflicting_from(rows, r, s, at) matches Some(i) ==> at <= i < rows.len()
            && commands::conflict(rows[i], r, s) && forall|j: int|
            at <= j < i ==> !commands::conflict(#[trigger] rows[j], r, s),
        dmlcheck::conflicting_from(rows, r, s, at) is None ==> forall|j: int|
            at <= j < rows.len() ==> !commands::conflict(#[trigger] rows[j], r, s),
    decreases rows.len() - at,
{
    if at < rows.len() && !commands::conflict(rows[at], r, s) {
        conflicting_is(rows, r, s, at + 1);
    }
}

/// An upsert adds its row to a table with checks where none stands in its way; otherwise the first
/// that does takes over the columns named, and the others stay.
pub proof fn checked_upserts_insert_or_update(
    sh: ShadowModel,
    d: Seq<char>,
    t: Seq<char>,
    r: RowModel,
    columns: Seq<Seq<char>>,
    ignore: bool,
    s: StoreModel,
    cx: ContextModel,
    sc: SchemaModel,
    rows: Seq<RowModel>,
    next: ShadowModel,
)
    requires
        validate::schema_in(sh.catalog, d, t) == Some(sc),
        validate::has_checks(sc),
        validate::image(sh.checked, sh, s, d, t) == Ok::<Seq<RowModel>, Seq<char>>(rows),
        batch::check_command(
            sh,
            CommandModel::Upsert {
                database: d,
                table: t,
                row: r,
                update_columns: columns,
                ignore: ignore,
            },
            s,
            cx,
        ) == Ok::<ShadowModel, Seq<char>>(next),
    ensures
        values::materialized(r, sc, cx.moment) matches Ok(full) && (validate::image(
            next.checked,
            next,
            s,
            d,
            t,
        ) matches Ok(after) && {
            &&& (forall|j: int|
                0 <= j < rows.len() ==> !commands::conflict(#[trigger] rows[j], full, sc)) ==> after
                == rows.push(full)
            &&& forall|i: int|
                0 <= i < rows.len() && commands::conflict(#[trigger] rows[i], full, sc) && (forall|
                    j: int,
                |
                    0 <= j < i ==> !commands::conflict(#[trigger] rows[j], full, sc))
                    ==> after.len() == rows.len() && values::materialized(
                    images::taken_from(rows[i], full, columns, 0),
                    sc,
                    cx.moment,
                ) == Ok::<RowModel, Seq<char>>(after[i]) && forall|j: int|
                    0 <= j < rows.len() && j != i ==> after[j] == rows[j]
        }),
        forall|i: int|
            0 <= i < columns.len() ==> schema::has_column(sc.columns, #[trigger] columns[i]),
{
    reveal(batch::check_command);
    reveal(dmlcheck::upsert_step);
    missing_means(sc.columns, columns, 0);
    let full = values::materialized(r, sc, cx.moment)->Ok_0;
    conflicting_is(rows, full, sc, 0);
    let after = dmlcheck::upserted_row(rows, full, columns, sc, cx)->Ok_0;
    pairs::set_then_pair(sh.checked, d, t, after, d, t);
    assert forall|i: int|
        0 <= i < rows.len() && commands::conflict(#[trigger] rows[i], full, sc) && (forall|j: int|
            0 <= j < i ==> !commands::conflict(#[trigger] rows[j], full, sc)) implies after.len()
        == rows.len() && values::materialized(
        images::taken_from(rows[i], full, columns, 0),
        sc,
        cx.moment,
    ) == Ok::<RowModel, Seq<char>>(after[i]) && forall|j: int|
        0 <= j < rows.len() && j != i ==> after[j] == rows[j] by {
        assert(dmlcheck::conflicting_from(rows, full, sc, 0) == Some(i));
    }
}

proof fn replaced_means(
    rows: Seq<RowModel>,
    sc: SchemaModel,
    d: Seq<char>,
    t: Seq<char>,
    s: StoreModel,
    cx: ContextModel,
    at: int,
    done: Seq<RowModel>,
    keys: KeysModel,
)
    requires
        0 <= at <= rows.len(),
        done.len() == at,
        told_apart(schema::keys(sc)),
    ensures
        dmlcheck::replaced_from(rows, sc, d, t, s, cx, at, done, keys) matches Ok(out) ==> {
            &&& out.0.len() == rows.len()
            &&& forall|i: int| 0 <= i < at ==> (#[trigger] out.0[i]) == done[i]
            &&& forall|i: int|
                at <= i < rows.len() ==> values::materialized(rows[i], sc, cx.moment) == Ok::<
                    RowModel,
                    Seq<char>,
                >(#[trigger] out.0[i])
            &&& forall|i: int, n: int|
                at <= i < rows.len() && 0 <= n < schema::keys(sc).len() ==> #[trigger] fresh(
                    keys,
                    out.0[i],
                    schema::keys(sc)[n],
                    d,
                    t,
                )
            &&& forall|i: int, j: int, n: int|
                at <= i < j < rows.len() && 0 <= n < schema::keys(sc).len() ==> !#[trigger] shares(
                    out.0[i],
                    out.0[j],
                    schema::keys(sc)[n],
                )
            &&& forall|i: int, n: int|
                at <= i < rows.len() && 0 <= n < schema::keys(sc).len() ==> #[trigger] brings(
                    out.1,
                    out.0[i],
                    schema::keys(sc)[n],
                    d,
                    t,
                )
            &&& forall|e: Seq<char>, u: Seq<char>, name: Seq<char>, k: Seq<u8>|
                validate::brought(keys, e, u, name).contains(k) ==> #[trigger] validate::brought(
                    out.1,
                    e,
                    u,
                    name,
                ).contains(k)
        },
    decreases rows.len() - at,
{
    let list = schema::keys(sc);
    if at < rows.len() {
        match values::materialized(rows[at], sc, cx.moment) {
            Err(_) => {},
            Ok(full) => {
                keys_added_means(keys, full, list, d, t, false, s, 0);
                match validate::keys_added(keys, full, list, d, t, false, s, 0) {
                    Err(_) => {},
                    Ok(next) => {
                        let more = done.push(full);
                        replaced_means(rows, sc, d, t, s, cx, at + 1, more, next);
                        match dmlcheck::replaced_from(rows, sc, d, t, s, cx, at + 1, more, next) {
                            Err(_) => {},
                            Ok(out) => {
                                assert(out.0[at] == more[at]);
                                assert forall|i: int| 0 <= i < at implies (#[trigger] out.0[i])
                                    == done[i] by {
                                    assert(out.0[i] == more[i]);
                                }
                                kept_keys(keys, full, list, d, t, next);
                                assert forall|n: int| 0 <= n < list.len() implies #[trigger] brings(
                                    next,
                                    full,
                                    list[n],
                                    d,
                                    t,
                                ) && fresh(keys, full, list[n], d, t) by {
                                    match values::key(full, list[n].columns) {
                                        Some(k) => {
                                            let known = validate::brought(keys, d, t, list[n].name);
                                            assert(validate::brought(next, d, t, list[n].name)
                                                == known.push(k));
                                            assert(known.push(k)[known.len() as int] == k);
                                        },
                                        None => {},
                                    }
                                }
                                assert forall|i: int, n: int|
                                    at <= i < rows.len() && 0 <= n
                                        < list.len() implies #[trigger] fresh(
                                    keys,
                                    out.0[i],
                                    list[n],
                                    d,
                                    t,
                                ) by {
                                    if i == at {
                                        assert(brings(next, full, list[n], d, t));
                                    } else {
                                        assert(fresh(next, out.0[i], list[n], d, t));
                                    }
                                }
                                assert forall|i: int, n: int|
                                    at <= i < rows.len() && 0 <= n
                                        < list.len() implies #[trigger] brings(
                                    out.1,
                                    out.0[i],
                                    list[n],
                                    d,
                                    t,
                                ) by {
                                    if i == at {
                                        assert(brings(next, full, list[n], d, t));
                                    }
                                }
                                assert forall|i: int, j: int, n: int|
                                    at <= i < j < rows.len() && 0 <= n
                                        < list.len() implies !#[trigger] shares(
                                    out.0[i],
                                    out.0[j],
                                    list[n],
                                ) by {
                                    if i == at {
                                        assert(brings(next, full, list[n], d, t));
                                        assert(fresh(next, out.0[j], list[n], d, t));
                                    }
                                }
                            },
                        }
                    },
                }
            },
        }
    }
}

proof fn kept_keys(
    keys: KeysModel,
    r: RowModel,
    list: Seq<KeyModel>,
    d: Seq<char>,
    t: Seq<char>,
    next: KeysModel,
)
    requires
        forall|i: int|
            0 <= i < list.len() ==> #[trigger] validate::brought(next, d, t, list[i].name)
                == match values::key(r, list[i].columns) {
                Some(k) => validate::brought(keys, d, t, list[i].name).push(k),
                None => validate::brought(keys, d, t, list[i].name),
            },
        forall|e: Seq<char>, u: Seq<char>, other: Seq<char>|
            (d != e || t != u || forall|i: int|
                0 <= i < list.len() ==> (#[trigger] list[i]).name != other)
                ==> #[trigger] validate::brought(next, e, u, other) == validate::brought(
                keys,
                e,
                u,
                other,
            ),
    ensures
        forall|e: Seq<char>, u: Seq<char>, name: Seq<char>, k: Seq<u8>|
            validate::brought(keys, e, u, name).contains(k) ==> #[trigger] validate::brought(
                next,
                e,
                u,
                name,
            ).contains(k),
{
    assert forall|e: Seq<char>, u: Seq<char>, name: Seq<char>, k: Seq<u8>|
        validate::brought(keys, e, u, name).contains(k) implies #[trigger] validate::brought(
        next,
        e,
        u,
        name,
    ).contains(k) by {
        let known = validate::brought(keys, e, u, name);
        let i = known.index_of(k);
        if e == d && u == t && exists|n: int| 0 <= n < list.len() && (#[trigger] list[n]).name == name {
            let n = choose|n: int| 0 <= n < list.len() && (#[trigger] list[n]).name == name;
            assert(validate::brought(next, d, t, list[n].name) == match values::key(
                r,
                list[n].columns,
            ) {
                Some(x) => known.push(x),
                None => known,
            });
            match values::key(r, list[n].columns) {
                Some(x) => {
                    assert(known.push(x)[i] == k);
                },
                None => {},
            }
        }
    }
}

/// Whether a batch has not brought the key of a row.
pub open spec fn fresh(keys: KeysModel, r: RowModel, key: KeyModel, d: Seq<char>, t: Seq<char>) -> bool {
    values::key(r, key.columns) matches Some(k) ==> !validate::brought(keys, d, t, key.name).contains(k)
}

/// Whether a batch has brought the key of a row.
pub open spec fn brings(keys: KeysModel, r: RowModel, key: KeyModel, d: Seq<char>, t: Seq<char>) -> bool {
    values::key(r, key.columns) matches Some(k) ==> validate::brought(keys, d, t, key.name).contains(k)
}

/// Whether two rows share a key.
pub open spec fn shares(a: RowModel, b: RowModel, key: KeyModel) -> bool {
    values::key(a, key.columns) is Some && values::key(a, key.columns) == values::key(b, key.columns)
}

/// A table image is taken up where its rows can be stored and no two of them share a key, whatever
/// is stored. Then it is all that counts of the table: its rows are seen, and its keys are taken.
pub proof fn images_of_tables_replace_their_rows(
    sh: ShadowModel,
    d: Seq<char>,
    t: Seq<char>,
    rows: Seq<RowModel>,
    affected: u64,
    s: StoreModel,
    cx: ContextModel,
    sc: SchemaModel,
    next: ShadowModel,
    i: int,
    j: int,
    n: int,
)
    requires
        validate::schema_in(sh.catalog, d, t) == Some(sc),
        told_apart(schema::keys(sc)),
        batch::check_command(
            sh,
            CommandModel::ReplaceRows {
                database: d,
                table: t,
                rows: rows,
                affected_rows: affected,
            },
            s,
            cx,
        ) == Ok::<ShadowModel, Seq<char>>(next),
    ensures
        counted(next, s, d, t) == Seq::<RowModel>::empty(),
        forall|i: int|
            0 <= i < rows.len() ==> values::materialized(#[trigger] rows[i], sc, cx.moment) is Ok,
        validate::has_checks(sc) ==> (validate::image(next.checked, next, s, d, t) matches Ok(full)
            && full.len() == rows.len() && forall|i: int|
            0 <= i < rows.len() ==> values::materialized(rows[i], sc, cx.moment) == Ok::<
                RowModel,
                Seq<char>,
            >(#[trigger] full[i])),
        0 <= i < j < rows.len() && 0 <= n < schema::keys(sc).len() ==> !shares(
            values::materialized(rows[i], sc, cx.moment)->Ok_0,
            values::materialized(rows[j], sc, cx.moment)->Ok_0,
            schema::keys(sc)[n],
        ),
        0 <= i < rows.len() && 0 <= n < schema::keys(sc).len() ==> brings(
            next.keys,
            values::materialized(rows[i], sc, cx.moment)->Ok_0,
            schema::keys(sc)[n],
            d,
            t,
        ),
        next.catalog == sh.catalog,
        next.procedures == sh.procedures,
{
    reveal(batch::check_command);
    reveal(dmlcheck::replace_step);
    let start = pairs::without_pair(sh.keys, d, t);
    replaced_means(rows, sc, d, t, s, cx, 0, Seq::empty(), start);
    let out = dmlcheck::replaced_from(rows, sc, d, t, s, cx, 0, Seq::empty(), start)->Ok_0;
    pairs::pair_added_has(sh.reset_tables, d, t);
    pairs::set_then_pair(sh.checked, d, t, out.0, d, t);
    assert forall|i: int| 0 <= i < rows.len() implies values::materialized(
        #[trigger] rows[i],
        sc,
        cx.moment,
    ) == Ok::<RowModel, Seq<char>>(out.0[i]) by {
        assert(out.0[i] == out.0[i]);
    }
    if 0 <= i < j < rows.len() && 0 <= n < schema::keys(sc).len() {
        assert(!shares(out.0[i], out.0[j], schema::keys(sc)[n]));
    }
    if 0 <= i < rows.len() && 0 <= n < schema::keys(sc).len() {
        assert(brings(out.1, out.0[i], schema::keys(sc)[n], d, t));
    }
}

proof fn assignments_mean(list: Seq<AssignmentModel>, sc: SchemaModel, cx: ContextModel, at: int)
    requires
        0 <= at <= list.len(),
    ensures
        dmlcheck::assignments_fail(list, sc, cx, at) is None <==> forall|i: int|
            at <= i < list.len() ==> dmlcheck::assignment_fails(#[trigger] list[i], sc, cx) is None,
    decreases list.len() - at,
{
    if at < list.len() {
        assignments_mean(list, sc, cx, at + 1);
    }
}

/// An expression UPDATE is refused where it assigns to or from a column that is not there, or NULL
/// to one that must not be. In a table without checks that, a filter on columns that are not there
/// and an operand that is no number are all that refuses it.
pub proof fn expressions_name_columns(
    sh: ShadowModel,
    d: Seq<char>,
    t: Seq<char>,
    filter: Option<PredicateModel>,
    list: Seq<AssignmentModel>,
    s: StoreModel,
    cx: ContextModel,
    sc: SchemaModel,
    i: int,
)
    requires
        validate::schema_in(sh.catalog, d, t) == Some(sc),
        0 <= i < list.len(),
    ensures
        ({
            let r = batch::check_command(
                sh,
                CommandModel::ExpressionUpdate {
                    database: d,
                    table: t,
                    filter: filter,
                    assignments: list,
                },
                s,
                cx,
            );
            let target = schema::column_at(sc.columns, list[i].target_column, 0);
            &&& target is None ==> r is Err
            &&& match list[i].value {
                UpdateModel::Column(source) => !schema::has_column(sc.columns, source) ==> r is Err,
                UpdateModel::Literal(v) => v is None && target is Some
                    && !sc.columns[target->0].nullable ==> r is Err,
                _ => true,
            }
            &&& !filter_reads(filter, sc) ==> r is Err
            &&& !validate::has_checks(sc) && filter_reads(filter, sc) && (forall|k: int|
                0 <= k < list.len() ==> dmlcheck::assignment_fails(
                    #[trigger] list[k],
                    sc,
                    cx,
                ) is None) ==> r == Ok::<ShadowModel, Seq<char>>(sh)
        }),
{
    reveal(batch::check_command);
    reveal(dmlcheck::expression_step);
    assignments_mean(list, sc, cx, 0);
    assert(dmlcheck::assignment_fails(list[i], sc, cx) is Some ==> dmlcheck::assignments_fail(
        list,
        sc,
        cx,
        0,
    ) is Some);
    match filter {
        Some(p) => {
            missing_means(sc.columns, predicate::predicate_columns(p), 0);
        },
        None => {},
    }
}

// ---------------------------------------------------------------------------------------------
// Databases and tables
// ---------------------------------------------------------------------------------------------
/// A table is made where its database is there and has no table of its name; behind that it is
/// there, has no rows, and no key of it is taken.
pub proof fn a_made_table_is_there(sh: ShadowModel, d: Seq<char>, sc: SchemaModel, s: StoreModel, cx: ContextModel, e: Seq<char>, u: Seq<char>)
    ensures
        ({
            let after = batch::check_command(
                sh,
                CommandModel::CreateTable { database: d, schema: sc },
                s,
                cx,
            );
            &&& after is Ok <==> assoc::lookup(sh.catalog, d) is Some && validate::schema_in(
                sh.catalog,
                d,
                sc.name,
            ) is None
            &&& after matches Ok(next) ==> {
                &&& validate::schema_in(next.catalog, d, sc.name) == Some(sc)
                &&& e != d || u != sc.name ==> validate::schema_in(next.catalog, e, u)
                    == validate::schema_in(sh.catalog, e, u)
                &&& (assoc::lookup(next.catalog, e) is Some) == (assoc::lookup(sh.catalog, e) is Some)
                &&& counted(next, s, d, sc.name) == Seq::<RowModel>::empty()
                &&& next.procedures == sh.procedures
            }
        }),
{
    reveal(batch::check_command);
    reveal(validate::create_table_step);
    match assoc::lookup(sh.catalog, d) {
        Some(tables) => {
            assoc::set_then_lookup(tables, sc.name, sc, u);
            assoc::set_then_lookup(sh.catalog, d, assoc::with_entry(tables, sc.name, sc), e);
            pairs::pair_added_has(sh.reset_tables, d, sc.name);
        },
        None => {},
    }
}

/// A table is dropped where it is there; behind that it is gone and none of its rows counts.
pub proof fn a_dropped_table_is_gone(sh: ShadowModel, d: Seq<char>, t: Seq<char>, s: StoreModel, cx: ContextModel, e: Seq<char>, u: Seq<char>, name: Seq<char>)
    ensures
        ({
            let after = batch::check_command(
                sh,
                CommandModel::DropTable { database: d, table: t },
                s,
                cx,
            );
            &&& after is Ok <==> validate::schema_in(sh.catalog, d, t) is Some
            &&& after matches Ok(next) ==> {
                &&& validate::schema_in(next.catalog, d, t) is None
                &&& e != d || u != t ==> validate::schema_in(next.catalog, e, u)
                    == validate::schema_in(sh.catalog, e, u)
                &&& (assoc::lookup(next.catalog, e) is Some) == (assoc::lookup(sh.catalog, e) is Some)
                &&& counted(next, s, d, t) == Seq::<RowModel>::empty()
                &&& validate::brought(next.keys, d, t, name) == Seq::<Seq<u8>>::empty()
                &&& e != d || u != t ==> validate::brought(next.keys, e, u, name)
                    == validate::brought(sh.keys, e, u, name)
                &&& next.procedures == sh.procedures
            }
        }),
{
    reveal(batch::check_command);
    reveal(validate::drop_table_step);
    match assoc::lookup(sh.catalog, d) {
        Some(tables) => {
            assoc::remove_then_lookup(tables, t, u);
            assoc::set_then_lookup(sh.catalog, d, assoc::without_entry(tables, t), e);
            pairs::pair_added_has(sh.reset_tables, d, t);
            pairs::removed_then_pair(sh.keys, d, t, e, u);
        },
        None => {},
    }
}

/// A database is made where there is none of its name, and dropped where there is one. A new one
/// has no tables; of one that was dropped no table is left and no row counts.
pub proof fn databases_are_checked(sh: ShadowModel, d: Seq<char>, s: StoreModel, cx: ContextModel, e: Seq<char>, u: Seq<char>)
    ensures
        ({
            let made = batch::check_command(sh, CommandModel::CreateDatabase(d), s, cx);
            let dropped = batch::check_command(sh, CommandModel::DropDatabase(d), s, cx);
            &&& made is Ok <==> assoc::lookup(sh.catalog, d) is None
            &&& dropped is Ok <==> assoc::lookup(sh.catalog, d) is Some
            &&& made matches Ok(next) ==> {
                &&& assoc::lookup(next.catalog, d) is Some
                &&& assoc::lookup(next.procedures, d) == Some(
                    Seq::<(Seq<char>, crate::schema::ProcedureModel)>::empty(),
                )
                &&& validate::schema_in(next.catalog, d, u) is None
                &&& e != d ==> assoc::lookup(next.catalog, e) == assoc::lookup(sh.catalog, e)
                &&& counted(next, s, d, u) == Seq::<RowModel>::empty()
            }
            &&& dropped matches Ok(next) ==> {
                &&& assoc::lookup(next.catalog, d) is None
                &&& assoc::lookup(next.procedures, d) is None
                &&& e != d ==> assoc::lookup(next.catalog, e) == assoc::lookup(sh.catalog, e)
                &&& e != d ==> assoc::lookup(next.procedures, e) == assoc::lookup(sh.procedures, e)
                &&& counted(next, s, d, u) == Seq::<RowModel>::empty()
            }
        }),
{
    reveal(batch::check_command);
    reveal(validate::create_database_step);
    reveal(validate::drop_database_step);
    assoc::set_then_lookup(sh.catalog, d, Seq::empty(), e);
    assoc::set_then_lookup(sh.procedures, d, Seq::empty(), e);
    assoc::remove_then_lookup(sh.catalog, d, e);
    assoc::remove_then_lookup(sh.procedures, d, e);
    assoc::with_name_has(sh.reset_databases, d);
}

// ---------------------------------------------------------------------------------------------
// Batches
// ---------------------------------------------------------------------------------------------
proof fn mapped_lookup<V, W>(list: Seq<(Seq<char>, V)>, f: spec_fn((Seq<char>, V)) -> (Seq<char>, W), name: Seq<char>, from: int)
    requires
        0 <= from <= list.len(),
        forall|e: (Seq<char>, V)| (#[trigger] f(e)).0 == e.0,
    ensures
        assoc::entry_from(list.map_values(f), name, from) == assoc::entry_from(list, name, from),
    decreases list.len() - from,
{
    if from < list.len() {
        assert(list.map_values(f)[from].0 == list[from].0);
        mapped_lookup(list, f, name, from + 1);
    }
}

/// A batch starts from the store: it knows the tables that are stored, all their rows count, and it
/// has brought nothing.
pub proof fn a_batch_starts_from_the_store(s: StoreModel, d: Seq<char>, t: Seq<char>, name: Seq<char>)
    ensures
        ({
            let sh = validate::shadow_of(s);
            &&& validate::schema_in(sh.catalog, d, t) == match store::table_in(s, d, t) {
                Some(found) => Some(found.schema),
                None => None,
            }
            &&& (assoc::lookup(sh.catalog, d) is Some) == (store::database_of(s, d) is Some)
            &&& store::table_in(s, d, t) matches Some(found) ==> counted(sh, s, d, t) == found.rows()
                && validate::image(sh.checked, sh, s, d, t) == Ok::<Seq<RowModel>, Seq<char>>(
                found.rows(),
            )
            &&& validate::brought(sh.keys, d, t, name) == Seq::<Seq<u8>>::empty()
            &&& keys_fit(sh, s, d, t)
        }),
{
    let f = |e: (Seq<char>, crate::database::DatabaseModel)|
        (e.0, e.1.tables.map_values(|x: (Seq<char>, crate::table::TableModel)| (x.0, x.1.schema)));
    assert(validate::catalog_of(s) == s.map_values(f));
    mapped_lookup(s, f, d, 0);
    assoc::entry_found(s, d, 0);
    match assoc::entry_from(s, d, 0) {
        Some(i) => {
            let g = |x: (Seq<char>, crate::table::TableModel)| (x.0, x.1.schema);
            let tables = s[i].1.tables;
            assert(s.map_values(f)[i] == f(s[i]));
            assert(f(s[i]).1 == tables.map_values(g));
            mapped_lookup(tables, g, t, 0);
            assoc::entry_found(tables, t, 0);
            match assoc::entry_from(tables, t, 0) {
                Some(j) => {
                    assert(tables.map_values(g)[j] == g(tables[j]));
                },
                None => {},
            }
        },
        None => {},
    }
}

proof fn refused_upto(
    list: Seq<CommandModel>,
    s: StoreModel,
    cx: ContextModel,
    states: Seq<ShadowModel>,
    n: int,
    at: int,
)
    requires
        0 <= at <= n <= list.len(),
        states.len() > n,
        forall|i: int|
            0 <= i < n ==> batch::check_command(#[trigger] states[i], list[i], s, cx) == Ok::<
                ShadowModel,
                Seq<char>,
            >(states[i + 1]),
    ensures
        batch::refused_from(states[at], list, s, cx, at) == batch::refused_from(
            states[n],
            list,
            s,
            cx,
            n,
        ),
    decreases n - at,
{
    if at < n {
        refused_upto(list, s, cx, states, n, at + 1);
    }
}

/// A batch is checked command by command, each against what the commands before it have come to:
/// the first that is refused refuses the batch, and a batch of which none is refused is not.
pub proof fn the_first_refused_command_refuses_the_batch(
    list: Seq<CommandModel>,
    s: StoreModel,
    cx: ContextModel,
    states: Seq<ShadowModel>,
    n: int,
)
    requires
        0 <= n <= list.len(),
        states.len() > n,
        states[0] == validate::shadow_of(s),
        forall|i: int|
            0 <= i < n ==> batch::check_command(#[trigger] states[i], list[i], s, cx) == Ok::<
                ShadowModel,
                Seq<char>,
            >(states[i + 1]),
    ensures
        n == list.len() ==> batch::refused(list, s, cx) is None,
        n < list.len() && batch::check_command(states[n], list[n], s, cx) is Err
            ==> batch::refused(list, s, cx) == Some(
            batch::check_command(states[n], list[n], s, cx)->Err_0,
        ),
{
    refused_upto(list, s, cx, states, n, 0);
}

} // verus!
