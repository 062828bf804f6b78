//! What statements that write rows come to: keys, numbers, upserts and expressions.
use crate::alter;
use crate::checks;
use crate::codec;
use crate::commands;
use crate::database;
use crate::database::DatabaseModel;
use crate::decimals;
use crate::images;
use crate::images::UpsertModel;
use crate::index;
use crate::predicate;
use crate::predicate::{ContextModel, PredicateModel};
use crate::row;
use crate::row::RowModel;
use crate::rowlaws;
use crate::rowlaws::{agree, carries, same_cells};
use crate::schema;
use crate::schema::{ColumnModel, DataTypeModel, IndexModel, KeyModel, MomentModel, SchemaModel};
use crate::sqltext;
use crate::tablelaws;
use crate::text;
use crate::values;
use crate::values::{AssignmentModel, NumericOperator, UpdateModel};
use vstd::prelude::*;

verus! {

// ---------------------------------------------------------------------------------------------
// Keys
// ---------------------------------------------------------------------------------------------
/// Whether two rows have the same values in some columns, none of them missing or NULL.
pub open spec fn equal_in(a: RowModel, b: RowModel, columns: Seq<Seq<char>>) -> bool {
    columns.len() > 0 && forall|i: int|
        0 <= i < columns.len() ==> a.get(#[trigger] columns[i]) is Some && !a.is_null(columns[i])
            && !b.is_null(columns[i]) && a.get(columns[i]) == b.get(columns[i])
}

/// Whether the values of a row can be told apart in a key: a value has less than 2^32 bytes.
pub open spec fn keyable(r: RowModel) -> bool {
    forall|name: Seq<char>| (#[trigger] r.get(name)) matches Some(v) ==> v.len() < codec::pow256(4)
}

proof fn key_some(r: RowModel, columns: Seq<Seq<char>>, at: int)
    requires
        0 <= at <= columns.len(),
    ensures
        values::key_from(r, columns, at) is Some <==> forall|i: int|
            at <= i < columns.len() ==> r.present(#[trigger] columns[i]) is Some,
    decreases columns.len() - at,
{
    if at < columns.len() {
        key_some(r, columns, at + 1);
    }
}

proof fn key_same(a: RowModel, b: RowModel, columns: Seq<Seq<char>>, at: int)
    requires
        0 <= at <= columns.len(),
        forall|i: int|
            at <= i < columns.len() ==> a.present(#[trigger] columns[i]) == b.present(columns[i]),
    ensures
        values::key_from(a, columns, at) == values::key_from(b, columns, at),
    decreases columns.len() - at,
{
    if at < columns.len() {
        assert(a.present(columns[at]) == b.present(columns[at]));
        key_same(a, b, columns, at + 1);
    }
}

/// Rows have the same key in some columns where they have the same values in them, none missing
/// or NULL, and only there.
pub proof fn same_keys_are_same_values(a: RowModel, b: RowModel, columns: Seq<Seq<char>>)
    requires
        keyable(a),
        keyable(b),
    ensures
        values::key(a, columns) is Some && values::key(a, columns) == values::key(b, columns) <==> equal_in(
            a,
            b,
            columns,
        ),
{
    key_some(a, columns, 0);
    key_some(b, columns, 0);
    if columns.len() > 0 {
        if values::key(a, columns) is Some && values::key(a, columns) == values::key(b, columns) {
            assert forall|i: int| 0 <= i < columns.len() implies (a.present(
                #[trigger] columns[i],
            ) matches Some(v) ==> v.len() < codec::pow256(4)) by {
                assert(a.get(columns[i]) == a.get(columns[i]));
            }
            assert forall|i: int| 0 <= i < columns.len() implies (b.present(
                #[trigger] columns[i],
            ) matches Some(v) ==> v.len() < codec::pow256(4)) by {
                assert(b.get(columns[i]) == b.get(columns[i]));
            }
            values::key_determines_values(a, b, columns, 0);
            assert forall|i: int| 0 <= i < columns.len() implies a.get(
                #[trigger] columns[i],
            ) is Some && !a.is_null(columns[i]) && !b.is_null(columns[i]) && a.get(columns[i])
                == b.get(columns[i]) by {
                assert(a.present(columns[i]) is Some);
                assert(b.present(columns[i]) is Some);
            }
        }
        if equal_in(a, b, columns) {
            assert forall|i: int| 0 <= i < columns.len() implies a.present(#[trigger] columns[i])
                == b.present(columns[i]) && a.present(columns[i]) is Some by {
                assert(a.get(columns[i]) is Some);
            }
            key_same(a, b, columns, 0);
        }
    }
}

proof fn marked_are_marked(columns: Seq<ColumnModel>, name: Seq<char>)
    ensures
        schema::marked_names(columns).contains(name) <==> exists|i: int|
            0 <= i < columns.len() && (#[trigger] columns[i]).is_primary_key && columns[i].name == name,
    decreases columns.len(),
{
    if columns.len() > 0 {
        let front = columns.drop_last();
        marked_are_marked(front, name);
        crate::seqs::push_holds(schema::marked_names(front), columns.last().name, name);
        if exists|i: int|
            0 <= i < front.len() && (#[trigger] front[i]).is_primary_key && front[i].name == name {
            let i = choose|i: int|
                0 <= i < front.len() && (#[trigger] front[i]).is_primary_key && front[i].name == name;
            assert(columns[i].is_primary_key && columns[i].name == name);
        }
        if exists|i: int|
            0 <= i < columns.len() && (#[trigger] columns[i]).is_primary_key && columns[i].name
                == name {
            let i = choose|i: int|
                0 <= i < columns.len() && (#[trigger] columns[i]).is_primary_key && columns[i].name
                    == name;
            if i < front.len() {
                assert(front[i].is_primary_key && front[i].name == name);
            }
        }
        if columns.last().is_primary_key && columns.last().name == name {
            assert(columns[columns.len() - 1].is_primary_key);
        }
    }
}

proof fn unique_keys_are_unique_indexes(indexes: Seq<IndexModel>, columns: Seq<Seq<char>>)
    ensures
        (exists|k: int|
            0 <= k < schema::unique_keys(indexes).len() && (#[trigger] schema::unique_keys(
                indexes,
            )[k]).columns == columns) <==> exists|i: int|
            0 <= i < indexes.len() && (#[trigger] indexes[i]).unique && indexes[i].columns
                == columns,
    decreases indexes.len(),
{
    if indexes.len() > 0 {
        let front = indexes.drop_last();
        unique_keys_are_unique_indexes(front, columns);
        let all = schema::unique_keys(indexes);
        let rest = schema::unique_keys(front);
        if exists|k: int| 0 <= k < all.len() && (#[trigger] all[k]).columns == columns {
            let k = choose|k: int| 0 <= k < all.len() && (#[trigger] all[k]).columns == columns;
            if k < rest.len() {
                assert(rest[k].columns == columns);
                let i = choose|i: int|
                    0 <= i < front.len() && (#[trigger] front[i]).unique && front[i].columns
                        == columns;
                assert(indexes[i].unique && indexes[i].columns == columns);
            } else {
                assert(indexes[indexes.len() - 1].unique);
            }
        }
        if exists|i: int|
            0 <= i < indexes.len() && (#[trigger] indexes[i]).unique && indexes[i].columns
                == columns {
            let i = choose|i: int|
                0 <= i < indexes.len() && (#[trigger] indexes[i]).unique && indexes[i].columns
                    == columns;
            if i < front.len() {
                assert(front[i].unique && front[i].columns == columns);
                let k = choose|k: int| 0 <= k < rest.len() && (#[trigger] rest[k]).columns == columns;
                assert(all[k].columns == columns);
            } else {
                assert(all[rest.len() as int].columns == columns);
            }
        }
    }
}

/// The keys of a table are its primary key, where it has one, and its unique indexes. The primary
/// key is the one that is named, or the columns that are marked.
pub proof fn tables_have_these_keys(s: SchemaModel, columns: Seq<Seq<char>>, name: Seq<char>)
    ensures
        (exists|k: int|
            0 <= k < schema::keys(s).len() && (#[trigger] schema::keys(s)[k]).columns == columns)
            <==> (schema::primary_key(s).len() > 0 && schema::primary_key(s) == columns) || exists|
            i: int,
        |
            0 <= i < s.indexes.len() && (#[trigger] s.indexes[i]).unique && s.indexes[i].columns
                == columns,
        s.primary_key matches Some(names) ==> schema::primary_key(s) == names,
        s.primary_key is None ==> (schema::primary_key(s).contains(name) <==> exists|i: int|
            0 <= i < s.columns.len() && (#[trigger] s.columns[i]).is_primary_key && s.columns[i].name
                == name),
{
    unique_keys_are_unique_indexes(s.indexes, columns);
    marked_are_marked(s.columns, name);
    let all = schema::keys(s);
    let rest = schema::unique_keys(s.indexes);
    let shift: int = if schema::primary_key(s).len() == 0 {
        0
    } else {
        1
    };
    assert forall|k: int| 0 <= k < rest.len() implies #[trigger] all[k + shift] == rest[k] by {}
    if exists|k: int| 0 <= k < all.len() && (#[trigger] all[k]).columns == columns {
        let k = choose|k: int| 0 <= k < all.len() && (#[trigger] all[k]).columns == columns;
        if k >= shift {
            assert(all[(k - shift) + shift] == rest[k - shift]);
            assert(rest[k - shift].columns == columns);
        }
    }
    if exists|k: int| 0 <= k < rest.len() && (#[trigger] rest[k]).columns == columns {
        let k = choose|k: int| 0 <= k < rest.len() && (#[trigger] rest[k]).columns == columns;
        assert(all[k + shift].columns == columns);
    }
    if schema::primary_key(s).len() > 0 && schema::primary_key(s) == columns {
        assert(all[0].columns == columns);
    }
}

/// Rows stand in each other's way where they agree in a key of their table; in a table without
/// keys, where they are the same row.
pub proof fn conflicts_are_shared_keys(a: RowModel, b: RowModel, s: SchemaModel)
    requires
        keyable(a),
        keyable(b),
    ensures
        commands::conflict(a, b, s) <==> if schema::keys(s).len() == 0 {
            a == b
        } else {
            exists|k: int|
                0 <= k < schema::keys(s).len() && equal_in(
                    a,
                    b,
                    (#[trigger] schema::keys(s)[k]).columns,
                )
        },
{
    let keys = schema::keys(s);
    if keys.len() > 0 {
        assert forall|k: int| 0 <= k < keys.len() implies (values::key(
            a,
            (#[trigger] keys[k]).columns,
        ) is Some && values::key(a, keys[k].columns) == values::key(b, keys[k].columns)) == equal_in(
            a,
            b,
            keys[k].columns,
        ) by {
            same_keys_are_same_values(a, b, keys[k].columns);
        }
        if commands::conflict(a, b, s) {
            let k = choose|k: int|
                0 <= k < keys.len() && values::key(a, (#[trigger] keys[k]).columns) is Some
                    && values::key(a, keys[k].columns) == values::key(b, keys[k].columns);
            assert(equal_in(a, b, keys[k].columns));
        }
        if exists|k: int| 0 <= k < keys.len() && equal_in(a, b, (#[trigger] keys[k]).columns) {
            let k = choose|k: int|
                0 <= k < keys.len() && equal_in(a, b, (#[trigger] keys[k]).columns);
            assert(values::key(a, keys[k].columns) is Some);
        }
    }
}

proof fn taken_means(r: RowModel, rows: Seq<RowModel>, keys: Seq<KeyModel>, at: int)
    requires
        0 <= at <= keys.len(),
    ensures
        database::taken_key(r, rows, keys, at) is Some <==> exists|k: int, i: int|
            at <= k < keys.len() && 0 <= i < rows.len() && values::key(
                r,
                (#[trigger] keys[k]).columns,
            ) is Some && values::key(r, keys[k].columns) == values::key(
                #[trigger] rows[i],
                keys[k].columns,
            ),
    decreases keys.len() - at,
{
    if at < keys.len() {
        taken_means(r, rows, keys, at + 1);
        let mine = values::key(r, keys[at].columns);
        if mine is Some {
            index::key_set_means(rows, keys[at].columns, mine->0);
            if index::key_set(rows, keys[at].columns).contains(mine->0) {
                let i = choose|i: int|
                    0 <= i < rows.len() && values::key(#[trigger] rows[i], keys[at].columns)
                        == Some(mine->0);
                assert(values::key(r, keys[at].columns) == values::key(rows[i], keys[at].columns));
            }
        }
        if exists|k: int, i: int|
            at <= k < keys.len() && 0 <= i < rows.len() && values::key(
                r,
                (#[trigger] keys[k]).columns,
            ) is Some && values::key(r, keys[k].columns) == values::key(
                #[trigger] rows[i],
                keys[k].columns,
            ) {
            let (k, i) = choose|k: int, i: int|
                at <= k < keys.len() && 0 <= i < rows.len() && values::key(
                    r,
                    (#[trigger] keys[k]).columns,
                ) is Some && values::key(r, keys[k].columns) == values::key(
                    #[trigger] rows[i],
                    keys[k].columns,
                );
            if k > at {
                assert(values::key(r, keys[k].columns) == values::key(rows[i], keys[k].columns));
            } else {
                assert(values::key(rows[i], keys[at].columns) == mine);
            }
        }
    }
}

/// A row is inserted only where no row of the table has one of its keys.
pub proof fn taken_keys_are_refused(
    db: DatabaseModel,
    name: Seq<char>,
    r: RowModel,
    m: MomentModel,
    k: int,
    i: int,
)
    requires
        database::table_of(db, name) is Some,
        values::materialized(r, database::table_of(db, name)->0.schema, m) is Ok,
        0 <= k < schema::keys(database::table_of(db, name)->0.schema).len(),
        0 <= i < database::table_of(db, name)->0.rows().len(),
        keyable(values::materialized(r, database::table_of(db, name)->0.schema, m)->Ok_0),
        keyable(database::table_of(db, name)->0.rows()[i]),
        equal_in(
            values::materialized(r, database::table_of(db, name)->0.schema, m)->Ok_0,
            database::table_of(db, name)->0.rows()[i],
            schema::keys(database::table_of(db, name)->0.schema)[k].columns,
        ),
    ensures
        database::row_inserted(db, name, r, m) is Err,
{
    reveal(database::row_inserted);
    let t = database::table_of(db, name)->0;
    let full = values::materialized(r, t.schema, m)->Ok_0;
    let keys = schema::keys(t.schema);
    same_keys_are_same_values(full, t.rows()[i], keys[k].columns);
    taken_means(full, t.rows(), keys, 0);
    assert(values::key(full, keys[k].columns) == values::key(t.rows()[i], keys[k].columns));
}

/// Rows that are written to a table have each of its keys once.
pub proof fn written_keys_are_unique(
    rows: Seq<RowModel>,
    s: SchemaModel,
    m: MomentModel,
    k: int,
    i: int,
    j: int,
)
    requires
        images::prepared(rows, s, m) is Ok,
        0 <= k < schema::keys(s).len(),
        0 <= i < j < images::prepared(rows, s, m)->Ok_0.len(),
        keyable(images::prepared(rows, s, m)->Ok_0[i]),
        keyable(images::prepared(rows, s, m)->Ok_0[j]),
    ensures
        !equal_in(
            images::prepared(rows, s, m)->Ok_0[i],
            images::prepared(rows, s, m)->Ok_0[j],
            schema::keys(s)[k].columns,
        ),
{
    let full = images::prepared(rows, s, m)->Ok_0;
    images::prepared_unique(rows, s, m, k);
    same_keys_are_same_values(full[i], full[j], schema::keys(s)[k].columns);
}

// ---------------------------------------------------------------------------------------------
// Numbers
// ---------------------------------------------------------------------------------------------
/// A row leaves its number to the table where it has none, where it is NULL, and where it is the
/// single byte `0`.
pub proof fn rows_that_want_a_number(r: RowModel, column: Seq<char>)
    ensures
        images::wants_number(r, column) <==> !r.contains(column) || r.is_null(column) || (r.get(
            column,
        ) matches Some(v) && v.len() == 1 && v[0] == 0x30),
{
    match r.get(column) {
        Some(v) => {
            if v.len() == 1 && v[0] == 0x30 {
                assert(v =~= seq![0x30u8]);
            }
        },
        None => {},
    }
}

proof fn numbers_follow(
    rows: Seq<RowModel>,
    column: Seq<char>,
    at: int,
    done: Seq<RowModel>,
    last: u64,
    next: u64,
)
    requires
        0 <= at <= rows.len(),
        done.len() == at,
        images::numbered_from(rows, column, at, done, last, next) is Ok,
    ensures
        ({
            let n = images::numbered_from(rows, column, at, done, last, next)->Ok_0;
            &&& n.rows.len() == rows.len()
            &&& n.next is Some
            &&& next <= n.next->0
            &&& last != 0 ==> n.last == last
            &&& forall|i: int| 0 <= i < at ==> #[trigger] n.rows[i] == done[i]
            &&& forall|i: int|
                at <= i < rows.len() && !images::wants_number(rows[i], column) ==> #[trigger] n.rows[i]
                    == rows[i]
            &&& forall|i: int|
                at <= i < rows.len() && !images::wants_number(#[trigger] rows[i], column) && (
                images::number_at(rows[i], column) matches Some(k) && k < u64::MAX) ==> (
                images::number_at(rows[i], column)->0) < n.next->0
            &&& (forall|i: int|
                at <= i < rows.len() ==> images::wants_number(#[trigger] rows[i], column)) ==> {
                &&& n.next->0 == next + (rows.len() - at)
                &&& forall|i: int|
                    at <= i < rows.len() ==> images::number_at(#[trigger] n.rows[i], column) == Some(
                        (next + (i - at)) as nat,
                    )
                &&& last == 0 && next != 0 && at < rows.len() ==> n.last == next
            }
        }),
    decreases rows.len() - at,
{
    if at < rows.len() {
        if images::wants_number(rows[at], column) {
            let digits = crate::num::decimal(next as nat);
            let value = vstd::utf8::encode_utf8(digits);
            let r = rows[at].with(column, value);
            row::set_then_get(rows[at], column, value, column);
            vstd::utf8::encode_utf8_valid_utf8(digits);
            vstd::utf8::encode_utf8_decode_utf8(digits);
            crate::num::parsed_decimal(next as nat, u64::MAX as nat);
            assert(images::number_at(r, column) == Some(next as nat));
            let first = if last == 0 {
                next
            } else {
                last
            };
            numbers_follow(rows, column, at + 1, done.push(r), first, (next + 1) as u64);
            let n = images::numbered_from(rows, column, at, done, last, next)->Ok_0;
            assert(n.rows[at] == r);
        } else {
            match rows[at].get(column) {
                None => numbers_follow(rows, column, at + 1, done.push(rows[at]), last, next),
                Some(value) => {
                    let k = images::number_in(value)->0;
                    parsed_bound(value);
                    numbers_follow(
                        rows,
                        column,
                        at + 1,
                        done.push(rows[at]),
                        last,
                        images::larger(next, (k as u64).saturating_add(1)),
                    );
                },
            }
            let n = images::numbered_from(rows, column, at, done, last, next)->Ok_0;
            assert(n.rows[at] == rows[at]);
        }
    }
}

proof fn parsed_bound(value: Seq<u8>)
    ensures
        images::number_in(value) matches Some(n) ==> n <= u64::MAX,
{
}

/// Rows that leave their numbers to the table get the next ones, one after the other, and the
/// first of them is reported. A row that has its number keeps it, and the table counts on behind
/// it.
pub proof fn numbers_are_the_next_ones(s: SchemaModel, next: Option<u64>, rows: Seq<RowModel>)
    requires
        sqltext::auto_increment(s) is Some,
        images::numbered(s, next, rows) is Ok,
        next != Some(0u64),
    ensures
        ({
            let column = sqltext::auto_increment(s)->0;
            let n = images::numbered(s, next, rows)->Ok_0;
            let start = match next {
                Some(x) => x,
                None => 1u64,
            };
            &&& n.next is Some
            &&& forall|i: int|
                0 <= i < rows.len() && !images::wants_number(rows[i], column) ==> #[trigger] n.rows[i]
                    == rows[i]
            &&& forall|i: int|
                0 <= i < rows.len() && !images::wants_number(#[trigger] rows[i], column) && (
                images::number_at(rows[i], column) matches Some(k) && k < u64::MAX) ==> (
                images::number_at(rows[i], column)->0) < n.next->0
            &&& (forall|i: int|
                0 <= i < rows.len() ==> images::wants_number(#[trigger] rows[i], column)) ==> {
                &&& n.next->0 == start + rows.len()
                &&& forall|i: int|
                    0 <= i < rows.len() ==> images::number_at(#[trigger] n.rows[i], column) == Some(
                        (start + i) as nat,
                    )
                &&& rows.len() > 0 ==> n.last == start
            }
        }),
{
    let start = match next {
        Some(x) => x,
        None => 1u64,
    };
    numbers_follow(rows, sqltext::auto_increment(s)->0, 0, Seq::empty(), 0, start);
}

proof fn largest_is_largest(rows: Seq<RowModel>, column: Seq<char>, i: int)
    requires
        0 <= i < rows.len(),
    ensures
        images::number_at(rows[i], column) matches Some(k) ==> k <= images::largest(rows, column),
    decreases rows.len(),
{
    let front = rows.drop_last();
    if i < front.len() {
        largest_is_largest(front, column, i);
        assert(front[i] == rows[i]);
    }
    match rows[i].get(column) {
        Some(value) => parsed_bound(value),
        None => {},
    }
}

/// A table counts on behind every number that its rows have, and never back.
pub proof fn tables_count_on_behind_their_rows(
    s: SchemaModel,
    next: Option<u64>,
    rows: Seq<RowModel>,
    i: int,
)
    requires
        0 <= i < rows.len(),
    ensures
        match sqltext::auto_increment(s) {
            None => images::counting(s, next, rows) is None,
            Some(column) => images::counting(s, next, rows) matches Some(n) && n >= 1 && (
            next matches Some(before) ==> before <= n) && (images::number_at(rows[i], column) matches Some(
                k,
            ) ==> k < n || n == u64::MAX),
        },
{
    match sqltext::auto_increment(s) {
        None => {},
        Some(column) => largest_is_largest(rows, column, i),
    }
}

// ---------------------------------------------------------------------------------------------
// Upserts
// ---------------------------------------------------------------------------------------------
proof fn sharing_means(rows: Seq<RowModel>, r: RowModel, keys: Seq<KeyModel>, at: int)
    requires
        0 <= at <= rows.len(),
    ensures
        images::sharing_from(rows, r, keys, at) matches Some(i) ==> at <= i < rows.len()
            && commands::share_key(r, rows[i], keys) && forall|j: int|
            at <= j < i ==> !commands::share_key(r, #[trigger] rows[j], keys),
        images::sharing_from(rows, r, keys, at) is None ==> forall|j: int|
            at <= j < rows.len() ==> !commands::share_key(r, #[trigger] rows[j], keys),
    decreases rows.len() - at,
{
    if at < rows.len() && !commands::share_key(r, rows[at], keys) {
        sharing_means(rows, r, keys, at + 1);
    }
}

proof fn taken_columns(
    r: RowModel,
    other: RowModel,
    columns: Seq<Seq<char>>,
    at: int,
    name: Seq<char>,
)
    requires
        0 <= at <= columns.len(),
    ensures
        ({
            let x = images::taken_from(r, other, columns, at);
            let named = exists|i: int|
                at <= i < columns.len() && text::same_fold(#[trigger] columns[i], name);
            &&& named && other.is_null(name) ==> x.contains(name) && x.is_null(name)
            &&& named && !other.is_null(name) && other.contains(name) ==> x.get(name) == other.get(
                name,
            ) && !x.is_null(name)
            &&& !named ==> agree(r, x, name)
            &&& !other.is_null(name) && !other.contains(name) ==> agree(r, x, name)
        }),
    decreases columns.len() - at,
{
    if at < columns.len() {
        let c = columns[at];
        let next = if other.is_null(c) {
            r.with_null(c)
        } else {
            match other.get(c) {
                Some(value) => r.with(c, value),
                None => r,
            }
        };
        taken_columns(next, other, columns, at + 1, name);
        row::set_null_then_is_null(r, c, name);
        match other.get(c) {
            Some(value) => row::set_then_get(r, c, value, name),
            None => {},
        }
        if text::same_fold(c, name) {
            rowlaws::case_does_not_matter(other, c, name);
            rowlaws::case_does_not_matter(next, c, name);
            rowlaws::case_does_not_matter(r, c, name);
        }
        if exists|i: int| at <= i < columns.len() && text::same_fold(#[trigger] columns[i], name) {
            let i = choose|i: int|
                at <= i < columns.len() && text::same_fold(#[trigger] columns[i], name);
            if i > at {
                assert(text::same_fold(columns[i], name));
            } else if !(exists|i: int|
                at + 1 <= i < columns.len() && text::same_fold(#[trigger] columns[i], name)) {
                assert(agree(next, images::taken_from(r, other, columns, at), name));
            }
        } else {
            assert(!text::same_fold(columns[at], name));
        }
    }
}

/// One row put into others: where none of them shares a key with it, it stands behind them and
/// counts one. Where one does, the row is left out, if it is to be ignored; otherwise the first
/// such row takes the named columns from it and keeps its others, and counts two where that changes
/// it.
pub proof fn an_upsert_inserts_or_updates(
    state: UpsertModel,
    r: RowModel,
    s: SchemaModel,
    columns: Seq<Seq<char>>,
    ignore: bool,
    name: Seq<char>,
)
    requires
        state.affected < u64::MAX - 2,
        images::upserted_from(state, seq![r], s, columns, ignore, 0) is Ok,
    ensures
        ({
            let next = images::upserted_from(state, seq![r], s, columns, ignore, 0)->Ok_0;
            let keys = schema::keys(s);
            let free = forall|j: int|
                0 <= j < state.rows.len() ==> !commands::share_key(r, #[trigger] state.rows[j], keys);
            &&& free ==> next.rows == state.rows.push(r) && next.inserts == state.inserts.push(r)
                && next.affected == state.affected + 1 && next.changed == state.changed
            &&& !free && ignore ==> next == state
            &&& !free && !ignore ==> {
                &&& next.inserts == state.inserts
                &&& next.rows.len() == state.rows.len()
                &&& exists|i: int|
                    0 <= i < state.rows.len() && commands::share_key(r, state.rows[i], keys) && (
                    forall|j: int|
                        0 <= j < i ==> !commands::share_key(r, #[trigger] state.rows[j], keys))
                        && #[trigger] takes(state.rows[i], next.rows[i], r, columns, name) && (
                    forall|j: int|
                        0 <= j < state.rows.len() && j != i ==> #[trigger] next.rows[j]
                            == state.rows[j]) && next.affected == state.affected + (
                    if next.rows[i] != state.rows[i] {
                        2int
                    } else {
                        0int
                    }) && next.changed == (state.changed || next.rows[i] != state.rows[i])
            }
        }),
{
    let one = seq![r];
    reveal_with_fuel(images::upserted_from, 2);
    let keys = schema::keys(s);
    sharing_means(state.rows, r, keys, 0);
    match images::sharing_from(state.rows, r, keys, 0) {
        None => {},
        Some(i) => {
            if !ignore {
                let next = images::upserted_from(state, one, s, columns, ignore, 0)->Ok_0;
                taken_columns(state.rows[i], r, columns, 0, name);
                let after = images::taken_from(state.rows[i], r, columns, 0);
                assert(next.rows[i] == after);
                assert(takes(state.rows[i], next.rows[i], r, columns, name));
            }
        },
    }
}

/// Whether a row has taken the named columns from another, and kept its others, as far as a name
/// shows it.
pub open spec fn takes(
    before: RowModel,
    after: RowModel,
    from: RowModel,
    columns: Seq<Seq<char>>,
    name: Seq<char>,
) -> bool {
    let named = exists|i: int|
        0 <= i < columns.len() && text::same_fold(#[trigger] columns[i], name);
    &&& named && from.is_null(name) ==> after.contains(name) && after.is_null(name)
    &&& named && !from.is_null(name) && from.contains(name) ==> after.get(name) == from.get(name)
        && !after.is_null(name)
    &&& !named ==> agree(before, after, name)
}

/// Rows are put in one after the other: putting in more is putting in the first of them, and then
/// the rest.
pub proof fn upserts_go_one_by_one(
    state: UpsertModel,
    incoming: Seq<RowModel>,
    s: SchemaModel,
    columns: Seq<Seq<char>>,
    ignore: bool,
    at: int,
)
    requires
        0 <= at < incoming.len(),
    ensures
        images::upserted_from(state, incoming, s, columns, ignore, at) == (match images::upserted_from(
            state,
            seq![incoming[at]],
            s,
            columns,
            ignore,
            0,
        ) {
            Err(e) => Err(e),
            Ok(next) => images::upserted_from(next, incoming, s, columns, ignore, at + 1),
        }),
{
    reveal_with_fuel(images::upserted_from, 2);
    assert(seq![incoming[at]][0] == incoming[at]);
}

/// An upsert of a table starts from the table's rows, with nothing inserted, counted or changed;
/// what it changed is written, and what it only added is inserted.
pub proof fn upserts_start_from_the_table(
    rows: Seq<RowModel>,
    incoming: Seq<RowModel>,
    s: SchemaModel,
    columns: Seq<Seq<char>>,
    ignore: bool,
)
    ensures
        images::upserted(rows, incoming, s, columns, ignore) == images::upserted_from(
            UpsertModel { rows: rows, inserts: Seq::empty(), affected: 0, changed: false },
            incoming,
            s,
            columns,
            ignore,
            0,
        ),
{
}

// ---------------------------------------------------------------------------------------------
// Expressions
// ---------------------------------------------------------------------------------------------
/// A literal gives its value, a column what it holds, and an arithmetic expression the sum, the
/// difference, the product or the quotient of the column's number and its operand, as the target
/// stores it; NULL gives NULL.
pub proof fn expressions_give_these_values(
    r: RowModel,
    s: SchemaModel,
    target: ColumnModel,
    value: Option<Seq<u8>>,
    source: Seq<char>,
    op: NumericOperator,
    operand: Seq<u8>,
    m: MomentModel,
)
    ensures
        values::evaluated(r, s, target, UpdateModel::Literal(value), m) == Ok::<
            Option<Seq<u8>>,
            Seq<char>,
        >(value),
        values::evaluated(r, s, target, UpdateModel::Column(source), m) == Ok::<
            Option<Seq<u8>>,
            Seq<char>,
        >(
            if r.is_null(source) {
                None
            } else {
                r.get(source)
            },
        ),
        ({
            let e = UpdateModel::Numeric {
                source_column: source,
                operator: op,
                operand: operand,
            };
            let out = values::evaluated(r, s, target, e, m);
            &&& r.is_null(source) || !r.contains(source) ==> out == Ok::<
                Option<Seq<u8>>,
                Seq<char>,
            >(None)
            &&& !r.is_null(source) && r.contains(source) ==> match (
                checks::decimal_of(r.get(source)->0),
                checks::decimal_of(operand),
            ) {
                (Some(a), Some(b)) => match op {
                    NumericOperator::Add => out == values::stored_number(
                        decimals::decimal_sum(a, b),
                        target.data_type,
                    ),
                    NumericOperator::Subtract => out == values::stored_number(
                        decimals::decimal_difference(a, b),
                        target.data_type,
                    ),
                    NumericOperator::Multiply => out == values::stored_number(
                        decimals::decimal_product(a, b),
                        target.data_type,
                    ),
                    NumericOperator::Divide => if decimals::mantissa(b) == 0 {
                        out is Err
                    } else {
                        out == values::stored_number(
                            decimals::decimal_quotient(a, b),
                            target.data_type,
                        )
                    },
                },
                _ => out is Err,
            }
        }),
{
}

/// Arithmetic that goes out of range is refused. An integer column stores the result rounded to a
/// whole number, a floating one as it is, without zeros at its end.
pub proof fn results_are_stored_by_type(d: u128)
    ensures
        forall|t: DataTypeModel| (#[trigger] values::stored_number(None, t)) is Err,
        values::stored_number(Some(d), DataTypeModel::Int) == Ok::<Option<Seq<u8>>, Seq<char>>(
            Some(text::bytes_of(decimals::plain(decimals::normal(decimals::round_half_up(d, 0))))),
        ),
        values::stored_number(Some(d), DataTypeModel::BigInt) == values::stored_number(
            Some(d),
            DataTypeModel::Int,
        ),
        values::stored_number(Some(d), DataTypeModel::Double) == Ok::<Option<Seq<u8>>, Seq<char>>(
            Some(text::bytes_of(decimals::plain(decimals::normal(d)))),
        ),
        values::stored_number(Some(d), DataTypeModel::Float) == values::stored_number(
            Some(d),
            DataTypeModel::Double,
        ),
        values::stored_number(Some(d), DataTypeModel::Text) is Err,
{
}

/// DEFAULT gives the column's default: NULL where that is NULL, or where a nullable column has
/// none; the text of the default otherwise. A column that the table numbers gets its next number.
pub proof fn defaults_are_those_of_the_column(s: SchemaModel, name: Seq<char>, m: MomentModel, i: int)
    requires
        schema::column_fold_at(s.columns, name, 0) == Some(i),
    ensures
        ({
            let c = s.columns[i];
            let out = values::default_value(s, name, m);
            if sqltext::auto_increment(s) matches Some(a) && text::same_fold(a, c.name) {
                out == Ok::<Option<Seq<u8>>, Seq<char>>(Some(text::bytes_of("0"@)))
            } else {
                &&& c.default is None && c.nullable ==> out == Ok::<Option<Seq<u8>>, Seq<char>>(None)
                &&& c.default is None && !c.nullable ==> out is Err
                &&& c.default matches Some(d) ==> {
                    &&& text::same_fold(d, "NULL"@) ==> out == Ok::<Option<Seq<u8>>, Seq<char>>(None)
                    &&& !text::same_fold(d, "NULL"@) && !sqltext::is_current_timestamp(d) ==> out
                        == Ok::<Option<Seq<u8>>, Seq<char>>(Some(text::bytes_of(d)))
                }
            }
        }),
{
}

/// An assignment gives its target what its expression gives, NULL only where the target takes it,
/// and leaves every other column.
pub proof fn an_assignment_sets_its_target(
    r: RowModel,
    s: SchemaModel,
    a: AssignmentModel,
    m: MomentModel,
    other: Seq<char>,
)
    ensures
        match schema::column_at(s.columns, a.target_column, 0) {
            None => values::assigned_one(r, s, a, m) is Err,
            Some(i) => match values::evaluated(r, s, s.columns[i], a.value, m) {
                Err(_) => values::assigned_one(r, s, a, m) is Err,
                Ok(Some(value)) => values::assigned_one(r, s, a, m) matches Ok(x) && x.get(
                    a.target_column,
                ) == Some(value) && !x.is_null(a.target_column) && (!text::same_fold(
                    a.target_column,
                    other,
                ) ==> agree(r, x, other)),
                Ok(None) => if s.columns[i].nullable {
                    values::assigned_one(r, s, a, m) matches Ok(x) && x.contains(a.target_column)
                        && x.is_null(a.target_column) && (!text::same_fold(a.target_column, other)
                        ==> agree(r, x, other))
                } else {
                    values::assigned_one(r, s, a, m) is Err
                },
            },
        },
{
    match schema::column_at(s.columns, a.target_column, 0) {
        None => {},
        Some(i) => match values::evaluated(r, s, s.columns[i], a.value, m) {
            Ok(Some(value)) => row::set_then_get(r, a.target_column, value, other),
            _ => row::set_null_then_is_null(r, a.target_column, other),
        },
    }
}

/// Assignments are made one after the other, each on what those before it left.
pub proof fn assignments_go_one_by_one(
    r: RowModel,
    s: SchemaModel,
    list: Seq<AssignmentModel>,
    m: MomentModel,
    at: int,
)
    requires
        0 <= at < list.len(),
    ensures
        values::assigned_from(r, s, list, m, list.len() as int) == Ok::<RowModel, Seq<char>>(r),
        values::assigned_from(r, s, list, m, at) == (match values::assigned_one(r, s, list[at], m) {
            Err(e) => Err(e),
            Ok(next) => values::assigned_from(next, s, list, m, at + 1),
        }),
{
}

proof fn expressed_rows(
    rows: Seq<RowModel>,
    s: SchemaModel,
    filter: Option<PredicateModel>,
    list: Seq<AssignmentModel>,
    cx: ContextModel,
    at: int,
    done: Seq<RowModel>,
    affected: nat,
    i: int,
)
    requires
        0 <= at <= rows.len(),
        done.len() == at,
        0 <= i < rows.len(),
        images::expressed_from(rows, s, filter, list, cx, at, done, affected) is Ok,
    ensures
        ({
            let (out, n) = images::expressed_from(
                rows,
                s,
                filter,
                list,
                cx,
                at,
                done,
                affected,
            )->Ok_0;
            &&& out.len() == rows.len()
            &&& affected <= n <= affected + (rows.len() - at)
            &&& i < at ==> out[i] == done[i]
            &&& i >= at && !predicate::passes(filter, rows[i], cx) ==> out[i] == rows[i]
            &&& i >= at && predicate::passes(filter, rows[i], cx) ==> values::assigned_from(
                rows[i],
                s,
                list,
                cx.moment,
                0,
            ) == Ok::<RowModel, Seq<char>>(out[i])
            &&& n == affected && i >= at ==> out[i] == rows[i]
        }),
    decreases rows.len() - at,
{
    if at < rows.len() {
        if !predicate::passes(filter, rows[at], cx) {
            expressed_rows(rows, s, filter, list, cx, at + 1, done.push(rows[at]), affected, i);
        } else {
            let r = values::assigned_from(rows[at], s, list, cx.moment, 0)->Ok_0;
            let more = if r != rows[at] {
                affected + 1
            } else {
                affected
            };
            expressed_rows(rows, s, filter, list, cx, at + 1, done.push(r), more, i);
        }
    }
}

/// An UPDATE with expressions keeps the number and the order of the rows: each row that passes the
/// filter is what its assignments make of it, and every other row is as it was.
pub proof fn expression_updates_assign_to_what_passes(
    db: DatabaseModel,
    name: Seq<char>,
    filter: Option<PredicateModel>,
    list: Seq<AssignmentModel>,
    defer: bool,
    cx: ContextModel,
    i: int,
)
    requires
        database::rows_expressed(db, name, filter, list, defer, cx) is Ok,
        database::table_of(db, name) matches Some(t) && tablelaws::settled(t)
            && tablelaws::reads_what_is_written(t, defer) && 0 <= i < t.rows().len(),
    ensures
        ({
            let t = database::table_of(db, name)->0;
            let r = t.rows()[i];
            let (after, _) = database::rows_expressed(db, name, filter, list, defer, cx)->Ok_0;
            database::table_of(after, name) matches Some(u) && {
                let x = u.rows()[i];
                &&& u.rows().len() == t.rows().len()
                &&& !predicate::passes(filter, r, cx) ==> same_cells(r, x)
                &&& predicate::passes(filter, r, cx) ==> (values::assigned_from(
                    r,
                    t.schema,
                    list,
                    cx.moment,
                    0,
                ) matches Ok(y) && carries(y, x))
            }
        }),
{
    reveal(database::rows_expressed);
    let t = database::table_of(db, name)->0;
    let r = t.rows()[i];
    expressed_rows(t.rows(), t.schema, filter, list, cx, 0, Seq::empty(), 0, i);
    let (image, n) = images::expressed(t.rows(), t.schema, filter, list, cx)->Ok_0;
    assert(rowlaws::complete(r, t.schema));
    if n > 0 {
        tablelaws::written_rows_are_held(db, name, image, defer, cx.moment);
        let (after, _) = database::rows_expressed(db, name, filter, list, defer, cx)->Ok_0;
        let u = database::table_of(after, name)->0;
        assert(carries(image[i], u.rows()[i]));
    }
}

} // verus!
