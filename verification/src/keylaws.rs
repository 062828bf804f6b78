//! What foreign keys do to child rows.
use crate::altercheck;
use crate::assoc;
use crate::commands::CommandModel;
use crate::fkeys;
use crate::fkeys::{ForeignKeyModel, ReferentialAction};
use crate::images;
use crate::predicate;
use crate::predicate::ContextModel;
use crate::referential;
use crate::referential::{CascadeModel, ChangeModel, EffectModel, RelatedModel, SourceModel};
use crate::row;
use crate::row::RowModel;
use crate::rowlaws;
use crate::rowlaws::{agree, carries};
use crate::schema::SchemaModel;
use crate::tablelaws;
use crate::text;
use crate::validate::TablesModel;
use crate::values;
use vstd::prelude::*;

verus! {

/// Whether a row has the values of a key in some columns, none of them NULL.
pub open spec fn has_key(r: RowModel, columns: Seq<Seq<char>>, key: Seq<Seq<u8>>) -> bool {
    columns.len() == key.len() && forall|i: int|
        0 <= i < columns.len() ==> r.get(#[trigger] columns[i]) == Some(key[i]) && !r.is_null(
            columns[i],
        )
}

proof fn key_means(r: RowModel, columns: Seq<Seq<char>>, key: Seq<Seq<u8>>)
    ensures
        fkeys::row_key(r, columns) == Some(key) <==> has_key(r, columns, key),
{
    if fkeys::row_key(r, columns) == Some(key) {
        assert forall|i: int| 0 <= i < columns.len() implies r.get(#[trigger] columns[i]) == Some(
            key[i],
        ) && !r.is_null(columns[i]) by {
            assert(r.present(columns[i]) is Some);
        }
    }
    if has_key(r, columns, key) {
        assert forall|i: int| 0 <= i < columns.len() implies r.present(
            #[trigger] columns[i],
        ) is Some by {
            assert(r.get(columns[i]) == Some(key[i]));
        }
        assert(columns.map_values(|c: Seq<char>| r.present(c)->0) =~= key);
    }
}

// ---------------------------------------------------------------------------------------------
// One child row
// ---------------------------------------------------------------------------------------------
proof fn unkeyed_row(r: RowModel, columns: Seq<Seq<char>>, at: int, name: Seq<char>)
    requires
        0 <= at <= columns.len(),
    ensures
        ({
            let x = referential::unkeyed_from(r, columns, at);
            let hit = exists|i: int|
                at <= i < columns.len() && text::same_fold(#[trigger] columns[i], name);
            &&& hit ==> x.contains(name) && x.is_null(name)
            &&& !hit ==> agree(r, x, name)
        }),
    decreases columns.len() - at,
{
    if at < columns.len() {
        let next = r.with_null(columns[at]);
        unkeyed_row(next, columns, at + 1, name);
        row::set_null_then_is_null(r, columns[at], name);
        if text::same_fold(columns[at], name) {
            rowlaws::case_does_not_matter(next, columns[at], name);
        }
        if exists|i: int| at <= i < columns.len() && text::same_fold(#[trigger] columns[i], name) {
            let i = choose|i: int|
                at <= i < columns.len() && text::same_fold(#[trigger] columns[i], name);
            if i > at {
                assert(text::same_fold(columns[i], name));
            }
        }
    }
}

proof fn keyed_row(
    r: RowModel,
    columns: Seq<Seq<char>>,
    key: Seq<Seq<u8>>,
    at: int,
    name: Seq<char>,
)
    requires
        0 <= at <= columns.len(),
        columns.len() == key.len(),
    ensures
        ({
            let x = referential::keyed_from(r, columns, key, at);
            &&& forall|i: int|
                at <= i < columns.len() && text::same_fold(#[trigger] columns[i], name) && (forall|
                    j: int,
                |
                    i < j < columns.len() ==> !text::same_fold(#[trigger] columns[j], name))
                    ==> x.get(name) == Some(key[i]) && !x.is_null(name)
            &&& (forall|i: int|
                at <= i < columns.len() ==> !text::same_fold(#[trigger] columns[i], name)) ==> agree(
                r,
                x,
                name,
            )
        }),
    decreases columns.len() - at,
{
    if at < columns.len() {
        let next = r.with(columns[at], key[at]);
        keyed_row(next, columns, key, at + 1, name);
        row::set_then_get(r, columns[at], key[at], name);
        if text::same_fold(columns[at], name) {
            rowlaws::case_does_not_matter(next, columns[at], name);
            let x = referential::keyed_from(r, columns, key, at);
            if forall|j: int| at < j < columns.len() ==> !text::same_fold(#[trigger] columns[j], name) {
                assert(agree(next, x, name));
            }
        }
    }
}

/// Whether a child row has lost its parent's key: NULL in the key's columns, and in every other
/// column that it has what it had.
pub open spec fn unkeyed(before: RowModel, after: RowModel, columns: Seq<Seq<char>>) -> bool {
    &&& forall|i: int|
        0 <= i < columns.len() ==> after.contains(#[trigger] columns[i]) && after.is_null(columns[i])
    &&& forall|name: Seq<char>|
        #![trigger before.contains(name)]
        before.contains(name) && (forall|i: int|
            0 <= i < columns.len() ==> !text::same_fold(#[trigger] columns[i], name)) ==> agree(
            before,
            after,
            name,
        )
}

/// Whether a child row has taken its parent's new key, and has in every other column what it had.
pub open spec fn rekeyed(
    before: RowModel,
    after: RowModel,
    columns: Seq<Seq<char>>,
    key: Seq<Seq<u8>>,
) -> bool {
    &&& has_key(after, columns, key)
    &&& forall|name: Seq<char>|
        #![trigger before.contains(name)]
        before.contains(name) && (forall|i: int|
            0 <= i < columns.len() ==> !text::same_fold(#[trigger] columns[i], name)) ==> agree(
            before,
            after,
            name,
        )
}

proof fn child_unkeyed(r: RowModel, columns: Seq<Seq<char>>, s: SchemaModel, cx: ContextModel)
    requires
        values::materialized(referential::unkeyed_from(r, columns, 0), s, cx.moment) is Ok,
    ensures
        unkeyed(
            r,
            values::materialized(referential::unkeyed_from(r, columns, 0), s, cx.moment)->Ok_0,
            columns,
        ),
{
    let between = referential::unkeyed_from(r, columns, 0);
    let after = values::materialized(between, s, cx.moment)->Ok_0;
    rowlaws::a_stored_row_carries_its_values(between, s, cx.moment);
    assert forall|i: int| 0 <= i < columns.len() implies after.contains(#[trigger] columns[i])
        && after.is_null(columns[i]) by {
        unkeyed_row(r, columns, 0, columns[i]);
        assert(text::same_fold(columns[i], columns[i]));
        assert(between.contains(columns[i]));
        assert(agree(between, after, columns[i]));
    }
    assert forall|name: Seq<char>|
        #![trigger r.contains(name)]
        r.contains(name) && (forall|i: int|
            0 <= i < columns.len() ==> !text::same_fold(#[trigger] columns[i], name)) implies agree(
        r,
        after,
        name,
    ) by {
        unkeyed_row(r, columns, 0, name);
        assert(between.contains(name));
        assert(agree(between, after, name));
    }
}

/// Whether the columns of a key have different names.
pub open spec fn columns_differ(columns: Seq<Seq<char>>) -> bool {
    forall|i: int, j: int|
        0 <= i < j < columns.len() ==> !text::same_fold(#[trigger] columns[i], #[trigger] columns[j])
}

proof fn child_rekeyed(
    r: RowModel,
    columns: Seq<Seq<char>>,
    key: Seq<Seq<u8>>,
    s: SchemaModel,
    cx: ContextModel,
)
    requires
        columns.len() == key.len(),
        columns_differ(columns),
        values::materialized(referential::keyed_from(r, columns, key, 0), s, cx.moment) is Ok,
    ensures
        rekeyed(
            r,
            values::materialized(referential::keyed_from(r, columns, key, 0), s, cx.moment)->Ok_0,
            columns,
            key,
        ),
{
    let between = referential::keyed_from(r, columns, key, 0);
    let after = values::materialized(between, s, cx.moment)->Ok_0;
    rowlaws::a_stored_row_carries_its_values(between, s, cx.moment);
    assert forall|i: int| 0 <= i < columns.len() implies after.get(#[trigger] columns[i]) == Some(
        key[i],
    ) && !after.is_null(columns[i]) by {
        keyed_row(r, columns, key, 0, columns[i]);
        assert(text::same_fold(columns[i], columns[i]));
        assert forall|j: int| i < j < columns.len() implies !text::same_fold(
            #[trigger] columns[j],
            columns[i],
        ) by {
            assert(!text::same_fold(columns[i], columns[j]));
        }
        assert(between.contains(columns[i]));
        assert(agree(between, after, columns[i]));
    }
    assert forall|name: Seq<char>|
        #![trigger r.contains(name)]
        r.contains(name) && (forall|i: int|
            0 <= i < columns.len() ==> !text::same_fold(#[trigger] columns[i], name)) implies agree(
        r,
        after,
        name,
    ) by {
        keyed_row(r, columns, key, 0, name);
        assert(between.contains(name));
        assert(agree(between, after, name));
    }
}

// ---------------------------------------------------------------------------------------------
// All child rows
// ---------------------------------------------------------------------------------------------
/// Child rows that stay: each that had the key is changed, and the others are as they were.
proof fn children_stay(
    rows: Seq<RowModel>,
    at: int,
    k: ForeignKeyModel,
    e: EffectModel,
    s: SchemaModel,
    pending: Seq<ChangeModel>,
    cx: ContextModel,
)
    requires
        -1 <= at < rows.len(),
        e.action != ReferentialAction::Cascade || e.kept,
        referential::children_down(rows, at, k, e, s, pending, cx) is Ok,
    ensures
        ({
            let (after, queue) = referential::children_down(rows, at, k, e, s, pending, cx)->Ok_0;
            &&& after.len() == rows.len()
            &&& forall|i: int|
                0 <= i < rows.len() ==> if i <= at && fkeys::row_key(rows[i], k.child_columns)
                    == Some(e.old_key) {
                    referential::child_after(rows[i], k, e, s, cx) == Ok::<RowModel, Seq<char>>(
                        #[trigger] after[i],
                    )
                } else {
                    after[i] == rows[i]
                }
            &&& pending.len() <= queue.len()
            &&& queue.take(pending.len() as int) == pending
            &&& forall|i: int|
                0 <= i <= at && fkeys::row_key(rows[i], k.child_columns) == Some(e.old_key)
                    ==> queue.contains(
                    ChangeModel {
                        table: k.child_table,
                        before: rows[i],
                        after: Some(#[trigger] after[i]),
                    },
                )
        }),
    decreases at + 1,
{
    let (after, queue) = referential::children_down(rows, at, k, e, s, pending, cx)->Ok_0;
    if at >= 0 {
        if fkeys::row_key(rows[at], k.child_columns) != Some(e.old_key) {
            children_stay(rows, at - 1, k, e, s, pending, cx);
        } else {
            let x = referential::child_after(rows[at], k, e, s, cx)->Ok_0;
            let next = rows.update(at, x);
            let change = ChangeModel { table: k.child_table, before: rows[at], after: Some(x) };
            let more = pending.push(change);
            children_stay(next, at - 1, k, e, s, more, cx);
            assert(queue.take(pending.len() as int) =~= pending) by {
                assert(queue.take(more.len() as int) == more);
                assert forall|j: int| 0 <= j < pending.len() implies queue[j] == pending[j] by {
                    assert(queue.take(more.len() as int)[j] == more[j]);
                }
            }
            assert(queue[pending.len() as int] == change) by {
                assert(queue.take(more.len() as int)[pending.len() as int] == change);
            }
            assert(queue.contains(change));
            assert(after[at] == next[at]);
            assert forall|i: int|
                0 <= i <= at && fkeys::row_key(rows[i], k.child_columns) == Some(
                    e.old_key,
                ) implies queue.contains(
                ChangeModel { table: k.child_table, before: rows[i], after: Some(#[trigger] after[i]) },
            ) by {
                if i < at {
                    assert(next[i] == rows[i]);
                }
            }
            assert forall|i: int| 0 <= i < rows.len() implies if i <= at && fkeys::row_key(
                rows[i],
                k.child_columns,
            ) == Some(e.old_key) {
                referential::child_after(rows[i], k, e, s, cx) == Ok::<RowModel, Seq<char>>(
                    #[trigger] after[i],
                )
            } else {
                after[i] == rows[i]
            } by {
                if i != at {
                    assert(next[i] == rows[i]);
                }
            }
        }
    } else {
        assert(queue.take(pending.len() as int) =~= pending);
    }
}

/// The rows that do not have a key, in their order.
pub open spec fn without_key(
    rows: Seq<RowModel>,
    columns: Seq<Seq<char>>,
    key: Seq<Seq<u8>>,
) -> Seq<RowModel> {
    rows.filter(|r: RowModel| !has_key(r, columns, key))
}

proof fn children_go(
    rows: Seq<RowModel>,
    at: int,
    k: ForeignKeyModel,
    e: EffectModel,
    s: SchemaModel,
    pending: Seq<ChangeModel>,
    cx: ContextModel,
)
    requires
        -1 <= at < rows.len(),
        e.action == ReferentialAction::Cascade,
        !e.kept,
    ensures
        referential::children_down(rows, at, k, e, s, pending, cx) is Ok,
        ({
            let (after, queue) = referential::children_down(rows, at, k, e, s, pending, cx)->Ok_0;
            &&& after == without_key(rows.take(at + 1), k.child_columns, e.old_key) + rows.skip(
                at + 1,
            )
            &&& pending.len() <= queue.len()
            &&& queue.take(pending.len() as int) == pending
            &&& forall|i: int|
                0 <= i <= at && has_key(#[trigger] rows[i], k.child_columns, e.old_key)
                    ==> queue.contains(
                    ChangeModel { table: k.child_table, before: rows[i], after: None },
                )
        }),
    decreases at + 1,
{
    reveal(Seq::filter);
    let p = |r: RowModel| !has_key(r, k.child_columns, e.old_key);
    let (after, queue) = referential::children_down(rows, at, k, e, s, pending, cx)->Ok_0;
    if at >= 0 {
        key_means(rows[at], k.child_columns, e.old_key);
        let upto = rows.take(at + 1);
        assert(upto.drop_last() =~= rows.take(at));
        assert(upto.last() == rows[at]);
        if !has_key(rows[at], k.child_columns, e.old_key) {
            children_go(rows, at - 1, k, e, s, pending, cx);
            assert(upto.filter(p) == rows.take(at).filter(p).push(rows[at]));
            assert(rows.take(at).filter(p) + rows.skip(at) =~= rows.take(at).filter(p).push(rows[at])
                + rows.skip(at + 1));
        } else {
            let next = rows.remove(at);
            let change = ChangeModel { table: k.child_table, before: rows[at], after: None };
            let more = pending.push(change);
            children_go(next, at - 1, k, e, s, more, cx);
            assert(next.take(at) =~= rows.take(at));
            assert(next.skip(at) =~= rows.skip(at + 1));
            assert(queue.take(pending.len() as int) =~= pending) by {
                assert forall|j: int| 0 <= j < pending.len() implies queue[j] == pending[j] by {
                    assert(queue.take(more.len() as int)[j] == more[j]);
                }
            }
            assert(queue[pending.len() as int] == change) by {
                assert(queue.take(more.len() as int)[pending.len() as int] == change);
            }
            assert(queue.contains(change));
            assert forall|i: int|
                0 <= i <= at && has_key(
                    #[trigger] rows[i],
                    k.child_columns,
                    e.old_key,
                ) implies queue.contains(
                ChangeModel { table: k.child_table, before: rows[i], after: None },
            ) by {
                if i < at {
                    assert(next[i] == rows[i]);
                }
            }
        }
    } else {
        assert(rows.take(0).filter(p) =~= Seq::empty());
        assert(after =~= without_key(rows.take(0), k.child_columns, e.old_key) + rows.skip(0));
        assert(queue.take(pending.len() as int) =~= pending);
    }
}

// ---------------------------------------------------------------------------------------------
// A change of a parent
// ---------------------------------------------------------------------------------------------
/// The rows of a key's child table.
pub open spec fn children(related: RelatedModel, k: ForeignKeyModel) -> Seq<RowModel> {
    assoc::lookup(related, k.child_table)->0
}

/// Whether a change takes a parent's key away from a foreign key's children: the parent had the
/// key, and it is deleted, or has another key or none.
pub open spec fn loses(c: ChangeModel, k: ForeignKeyModel, key: Seq<Seq<u8>>) -> bool {
    &&& c.table == k.parent_table
    &&& has_key(c.before, k.parent_columns, key)
    &&& c.after matches Some(r) ==> !has_key(r, k.parent_columns, key)
}

/// What a foreign key asks for on a change.
pub open spec fn asked(c: ChangeModel, k: ForeignKeyModel) -> ReferentialAction {
    if c.after is None {
        k.on_delete
    } else {
        k.on_update
    }
}

proof fn effect_means(c: ChangeModel, k: ForeignKeyModel, key: Seq<Seq<u8>>)
    ensures
        loses(c, k, key) ==> (referential::effect_of(c, k) matches Some(e) && e.old_key == key
            && e.action == asked(c, k) && e.kept == (c.after is Some) && e.new_key == (match c.after {
            Some(r) => fkeys::row_key(r, k.parent_columns),
            None => None,
        })),
{
    key_means(c.before, k.parent_columns, key);
    match c.after {
        Some(r) => key_means(r, k.parent_columns, key),
        None => {},
    }
}

proof fn any_child_means(rows: Seq<RowModel>, k: ForeignKeyModel, key: Seq<Seq<u8>>)
    ensures
        referential::any_child(rows, k, key) <==> exists|i: int|
            0 <= i < rows.len() && has_key(#[trigger] rows[i], k.child_columns, key),
{
    if referential::any_child(rows, k, key) {
        let i = choose|i: int|
            0 <= i < rows.len() && fkeys::row_key(#[trigger] rows[i], k.child_columns) == Some(key);
        key_means(rows[i], k.child_columns, key);
        assert(has_key(rows[i], k.child_columns, key));
    }
    if exists|i: int| 0 <= i < rows.len() && has_key(#[trigger] rows[i], k.child_columns, key) {
        let i = choose|i: int|
            0 <= i < rows.len() && has_key(#[trigger] rows[i], k.child_columns, key);
        key_means(rows[i], k.child_columns, key);
        assert(fkeys::row_key(rows[i], k.child_columns) == Some(key));
    }
}

/// Under SET NULL, where a parent is deleted or its key changed, there are as many child rows as
/// before, in the same order. Each that had the key is NULL in the key's columns and has in its
/// other columns what it had; each other child is as it was.
pub proof fn set_null_keeps_the_children(
    state: CascadeModel,
    c: ChangeModel,
    k: ForeignKeyModel,
    key: Seq<Seq<u8>>,
    schemas: TablesModel,
    cx: ContextModel,
    i: int,
)
    requires
        loses(c, k, key),
        asked(c, k) == ReferentialAction::SetNull,
        referential::key_step(state, c, k, schemas, cx) is Ok,
        0 <= i < children(state.related, k).len(),
    ensures
        ({
            let rows = children(state.related, k);
            let next = referential::key_step(state, c, k, schemas, cx)->Ok_0;
            let after = children(next.related, k);
            &&& after.len() == rows.len()
            &&& has_key(rows[i], k.child_columns, key) ==> unkeyed(
                rows[i],
                after[i],
                k.child_columns,
            ) && next.pending.contains(
                ChangeModel { table: k.child_table, before: rows[i], after: Some(after[i]) },
            )
            &&& !has_key(rows[i], k.child_columns, key) ==> after[i] == rows[i]
        }),
{
    reveal(referential::key_step);
    effect_means(c, k, key);
    let e = referential::effect_of(c, k)->0;
    let rows = children(state.related, k);
    let s = assoc::lookup(schemas, k.child_table)->0;
    any_child_means(rows, k, key);
    key_means(rows[i], k.child_columns, key);
    if referential::any_child(rows, k, key) {
        children_stay(rows, rows.len() - 1, k, e, s, state.pending, cx);
        let (after, _) = referential::children_down(
            rows,
            rows.len() - 1,
            k,
            e,
            s,
            state.pending,
            cx,
        )->Ok_0;
        assoc::set_then_lookup(state.related, k.child_table, after, k.child_table);
        if has_key(rows[i], k.child_columns, key) {
            assert(referential::child_after(rows[i], k, e, s, cx) == Ok::<RowModel, Seq<char>>(
                after[i],
            ));
            child_unkeyed(rows[i], k.child_columns, s, cx);
        }
    } else if has_key(rows[i], k.child_columns, key) {
        assert(false);
    }
}

/// Under CASCADE, the children of a deleted parent are deleted; every other child is as it was, in
/// its order. Each deleted child is itself a deleted parent from then on.
pub proof fn delete_cascade_takes_the_children(
    state: CascadeModel,
    c: ChangeModel,
    k: ForeignKeyModel,
    key: Seq<Seq<u8>>,
    schemas: TablesModel,
    cx: ContextModel,
)
    requires
        c.after is None,
        loses(c, k, key),
        k.on_delete == ReferentialAction::Cascade,
        referential::key_step(state, c, k, schemas, cx) is Ok,
    ensures
        ({
            let rows = children(state.related, k);
            let next = referential::key_step(state, c, k, schemas, cx)->Ok_0;
            &&& children(next.related, k) == without_key(rows, k.child_columns, key)
            &&& forall|i: int|
                0 <= i < rows.len() && has_key(#[trigger] rows[i], k.child_columns, key)
                    ==> next.pending.contains(
                    ChangeModel { table: k.child_table, before: rows[i], after: None },
                )
        }),
{
    reveal(referential::key_step);
    effect_means(c, k, key);
    let e = referential::effect_of(c, k)->0;
    let rows = children(state.related, k);
    let s = assoc::lookup(schemas, k.child_table)->0;
    any_child_means(rows, k, key);
    if referential::any_child(rows, k, key) {
        children_go(rows, rows.len() - 1, k, e, s, state.pending, cx);
        let (after, _) = referential::children_down(
            rows,
            rows.len() - 1,
            k,
            e,
            s,
            state.pending,
            cx,
        )->Ok_0;
        assoc::set_then_lookup(state.related, k.child_table, after, k.child_table);
        assert(rows.take(rows.len() as int) =~= rows);
        assert(rows.skip(rows.len() as int) =~= Seq::empty());
        assert(after =~= without_key(rows, k.child_columns, key));
    } else {
        none_go(rows, k.child_columns, key);
    }
}

proof fn none_go(rows: Seq<RowModel>, columns: Seq<Seq<char>>, key: Seq<Seq<u8>>)
    requires
        forall|i: int| 0 <= i < rows.len() ==> !has_key(#[trigger] rows[i], columns, key),
    ensures
        without_key(rows, columns, key) == rows,
    decreases rows.len(),
{
    reveal(Seq::filter);
    let p = |r: RowModel| !has_key(r, columns, key);
    if rows.len() > 0 {
        let front = rows.drop_last();
        assert forall|i: int| 0 <= i < front.len() implies !has_key(
            #[trigger] front[i],
            columns,
            key,
        ) by {
            assert(front[i] == rows[i]);
        }
        none_go(front, columns, key);
        assert(p(rows[rows.len() - 1]));
        assert(rows =~= front.push(rows.last()));
    } else {
        assert(rows.filter(p) =~= rows);
    }
}

/// Under CASCADE, the children of a parent whose key changed take the new key and keep all else;
/// every other child is as it was. No child goes or comes.
pub proof fn update_cascade_rekeys_the_children(
    state: CascadeModel,
    c: ChangeModel,
    k: ForeignKeyModel,
    key: Seq<Seq<u8>>,
    schemas: TablesModel,
    cx: ContextModel,
    i: int,
)
    requires
        c.after is Some,
        loses(c, k, key),
        k.on_update == ReferentialAction::Cascade,
        k.child_columns.len() == k.parent_columns.len(),
        columns_differ(k.child_columns),
        referential::key_step(state, c, k, schemas, cx) is Ok,
        0 <= i < children(state.related, k).len(),
    ensures
        ({
            let rows = children(state.related, k);
            let next = referential::key_step(state, c, k, schemas, cx)->Ok_0;
            let after = children(next.related, k);
            &&& after.len() == rows.len()
            &&& has_key(rows[i], k.child_columns, key) ==> (exists|new_key: Seq<Seq<u8>>|
                has_key(c.after->0, k.parent_columns, new_key) && #[trigger] rekeyed(
                    rows[i],
                    after[i],
                    k.child_columns,
                    new_key,
                )) && next.pending.contains(
                ChangeModel { table: k.child_table, before: rows[i], after: Some(after[i]) },
            )
            &&& !has_key(rows[i], k.child_columns, key) ==> after[i] == rows[i]
        }),
{
    reveal(referential::key_step);
    effect_means(c, k, key);
    let e = referential::effect_of(c, k)->0;
    let rows = children(state.related, k);
    let s = assoc::lookup(schemas, k.child_table)->0;
    any_child_means(rows, k, key);
    key_means(rows[i], k.child_columns, key);
    if referential::any_child(rows, k, key) {
        children_stay(rows, rows.len() - 1, k, e, s, state.pending, cx);
        let (after, _) = referential::children_down(
            rows,
            rows.len() - 1,
            k,
            e,
            s,
            state.pending,
            cx,
        )->Ok_0;
        assoc::set_then_lookup(state.related, k.child_table, after, k.child_table);
        if has_key(rows[i], k.child_columns, key) {
            assert(referential::child_after(rows[i], k, e, s, cx) == Ok::<RowModel, Seq<char>>(
                after[i],
            ));
            let new_key = e.new_key->0;
            key_means(c.after->0, k.parent_columns, new_key);
            child_rekeyed(rows[i], k.child_columns, new_key, s, cx);
            assert(rekeyed(rows[i], after[i], k.child_columns, new_key));
        }
    } else if has_key(rows[i], k.child_columns, key) {
        assert(false);
    }
}

/// Under RESTRICT, a parent that has a child can be neither deleted nor given another key; one
/// without children can, and nothing follows.
pub proof fn restrict_protects_the_children(
    state: CascadeModel,
    c: ChangeModel,
    k: ForeignKeyModel,
    key: Seq<Seq<u8>>,
    schemas: TablesModel,
    cx: ContextModel,
)
    requires
        loses(c, k, key),
        asked(c, k) == ReferentialAction::Restrict,
        assoc::lookup(schemas, k.child_table) is Some,
        assoc::lookup(state.related, k.child_table) is Some,
    ensures
        (exists|i: int|
            0 <= i < children(state.related, k).len() && has_key(
                #[trigger] children(state.related, k)[i],
                k.child_columns,
                key,
            )) <==> referential::key_step(state, c, k, schemas, cx) is Err,
        referential::key_step(state, c, k, schemas, cx) is Ok ==> referential::key_step(
            state,
            c,
            k,
            schemas,
            cx,
        )->Ok_0 == state,
{
    reveal(referential::key_step);
    effect_means(c, k, key);
    any_child_means(children(state.related, k), k, key);
}

/// Where a parent keeps its key, where it had none, and where a table is not the parent of the
/// key, nothing follows. The rows of tables other than the key's child table stay in any case.
pub proof fn unconcerned_rows_stay(
    state: CascadeModel,
    c: ChangeModel,
    k: ForeignKeyModel,
    schemas: TablesModel,
    cx: ContextModel,
    other: Seq<char>,
)
    requires
        referential::key_step(state, c, k, schemas, cx) is Ok,
    ensures
        other != k.child_table ==> assoc::lookup(
            referential::key_step(state, c, k, schemas, cx)->Ok_0.related,
            other,
        ) == assoc::lookup(state.related, other),
        !(exists|key: Seq<Seq<u8>>| #[trigger] loses(c, k, key)) ==> referential::key_step(
            state,
            c,
            k,
            schemas,
            cx,
        )->Ok_0 == state,
        referential::key_step(state, c, k, schemas, cx)->Ok_0.related == state.related
            || referential::key_step(state, c, k, schemas, cx)->Ok_0.changed.contains(k.child_table),
{
    reveal(referential::key_step);
    match referential::effect_of(c, k) {
        None => {},
        Some(e) => {
            key_means(c.before, k.parent_columns, e.old_key);
            match c.after {
                Some(r) => key_means(r, k.parent_columns, e.old_key),
                None => {},
            }
            assert(loses(c, k, e.old_key));
            let rows = children(state.related, k);
            let s = assoc::lookup(schemas, k.child_table)->0;
            if referential::any_child(rows, k, e.old_key) {
                let (after, _) = referential::children_down(
                    rows,
                    rows.len() - 1,
                    k,
                    e,
                    s,
                    state.pending,
                    cx,
                )->Ok_0;
                assoc::set_then_lookup(state.related, k.child_table, after, other);
                assoc::with_name_has(state.changed, k.child_table);
            }
        },
    }
}

/// A cascade that ends has worked off every change.
pub proof fn a_cascade_works_off_every_change(
    state: CascadeModel,
    keys: Seq<ForeignKeyModel>,
    schemas: TablesModel,
    cx: ContextModel,
    processed: int,
)
    requires
        referential::cascaded(state, keys, schemas, cx, processed) is Ok,
    ensures
        referential::cascaded(state, keys, schemas, cx, processed)->Ok_0.pending.len() == 0,
    decreases referential::CASCADE_LIMIT - processed,
{
    if state.pending.len() > 0 && processed < referential::CASCADE_LIMIT {
        let rest = CascadeModel { pending: state.pending.drop_first(), ..state };
        let next = referential::keys_from(rest, state.pending[0], keys, schemas, cx, 0)->Ok_0;
        a_cascade_works_off_every_change(next, keys, schemas, cx, processed + 1);
    }
}

// ---------------------------------------------------------------------------------------------
// What starts a cascade
// ---------------------------------------------------------------------------------------------
/// A DELETE under foreign keys leaves the rows that do not pass its filter, and starts from the
/// deletion of each of the others.
pub proof fn a_delete_starts_from_what_passes(
    c: CommandModel,
    rows: Seq<RowModel>,
    t: Seq<char>,
    s: SchemaModel,
    cx: ContextModel,
    i: int,
)
    requires
        c is Delete,
        0 <= i < rows.len(),
    ensures
        referential::source_step(c, rows, t, s, cx) is Ok,
        ({
            let out = referential::source_step(c, rows, t, s, cx)->Ok_0;
            &&& out.rows == tablelaws::spared(rows, c->Delete_filter, cx)
            &&& predicate::passes(c->Delete_filter, rows[i], cx) ==> out.changes.contains(
                ChangeModel { table: t, before: rows[i], after: None },
            )
            &&& forall|j: int|
                0 <= j < out.changes.len() ==> (#[trigger] out.changes[j]).after is None
                    && out.changes[j].table == t && rows.contains(out.changes[j].before)
                    && predicate::passes(c->Delete_filter, out.changes[j].before, cx)
        }),
{
    reveal(referential::source_step);
    let filter = c->Delete_filter;
    let p = crate::table::passes_fn(filter, cx);
    let gone = rows.filter(p);
    let out = referential::source_step(c, rows, t, s, cx)->Ok_0;
    assert(images::kept_fn(filter, cx) =~= (|r: RowModel| !predicate::passes(filter, r, cx)));
    assert(out.changes == referential::deletions(gone, t));
    if predicate::passes(filter, rows[i], cx) {
        crate::seqs::filter_holds(rows, p, rows[i]);
        assert(rows.contains(rows[i]));
        let j = choose|j: int| 0 <= j < gone.len() && gone[j] == rows[i];
        assert(out.changes[j] == (ChangeModel { table: t, before: rows[i], after: None }));
    }
    assert forall|j: int| 0 <= j < out.changes.len() implies (#[trigger] out.changes[j]).after is None
        && out.changes[j].table == t && rows.contains(out.changes[j].before) && predicate::passes(
        filter,
        out.changes[j].before,
        cx,
    ) by {
        crate::seqs::filter_holds(rows, p, gone[j]);
        assert(gone.contains(gone[j]));
    }
}

proof fn update_starts(
    rows: Seq<RowModel>,
    t: Seq<char>,
    s: SchemaModel,
    filter: Option<predicate::PredicateModel>,
    sets: crate::commands::SetModel,
    cx: ContextModel,
    at: int,
    done: SourceModel,
    i: int,
)
    requires
        0 <= at <= rows.len(),
        done.rows.len() == at,
        0 <= i < rows.len(),
        referential::update_source(rows, t, s, filter, sets, cx, at, done) is Ok,
    ensures
        ({
            let out = referential::update_source(rows, t, s, filter, sets, cx, at, done)->Ok_0;
            &&& out.rows.len() == rows.len()
            &&& i < at ==> out.rows[i] == done.rows[i]
            &&& i >= at && !predicate::passes(filter, rows[i], cx) ==> out.rows[i] == rows[i]
            &&& i >= at && predicate::passes(filter, rows[i], cx) ==> values::materialized(
                images::set_from(rows[i], sets, 0),
                s,
                cx.moment,
            ) == Ok::<RowModel, Seq<char>>(out.rows[i]) && out.changes.contains(
                ChangeModel { table: t, before: rows[i], after: Some(out.rows[i]) },
            )
            &&& forall|c: ChangeModel| done.changes.contains(c) ==> #[trigger] out.changes.contains(c)
        }),
    decreases rows.len() - at,
{
    if at < rows.len() {
        if !predicate::passes(filter, rows[at], cx) {
            update_starts(
                rows,
                t,
                s,
                filter,
                sets,
                cx,
                at + 1,
                SourceModel { rows: done.rows.push(rows[at]), ..done },
                i,
            );
        } else {
            let x = values::materialized(images::set_from(rows[at], sets, 0), s, cx.moment)->Ok_0;
            let change = ChangeModel { table: t, before: rows[at], after: Some(x) };
            let next = SourceModel {
                rows: done.rows.push(x),
                affected: done.affected.saturating_add(1),
                changes: done.changes.push(change),
            };
            update_starts(rows, t, s, filter, sets, cx, at + 1, next, i);
            crate::seqs::push_holds(done.changes, change, change);
            let out = referential::update_source(rows, t, s, filter, sets, cx, at, done)->Ok_0;
            assert forall|c: ChangeModel| done.changes.contains(c) implies #[trigger] out.changes.contains(
                c,
            ) by {
                crate::seqs::push_holds(done.changes, change, c);
            }
            assert(next.changes.contains(change));
        }
    }
}

/// An UPDATE under foreign keys keeps the number and the order of the rows, and starts from the
/// change of each row that passes its filter; the other rows are as they were.
pub proof fn an_update_starts_from_what_passes(
    c: CommandModel,
    rows: Seq<RowModel>,
    t: Seq<char>,
    s: SchemaModel,
    cx: ContextModel,
    i: int,
    column: Seq<char>,
)
    requires
        c is Update,
        referential::source_step(c, rows, t, s, cx) is Ok,
        0 <= i < rows.len(),
    ensures
        ({
            let out = referential::source_step(c, rows, t, s, cx)->Ok_0;
            let sets = c->Update_assignments;
            let x = out.rows[i];
            &&& out.rows.len() == rows.len()
            &&& !predicate::passes(c->Update_filter, rows[i], cx) ==> x == rows[i]
            &&& predicate::passes(c->Update_filter, rows[i], cx) ==> {
                &&& out.changes.contains(
                    ChangeModel { table: t, before: rows[i], after: Some(x) },
                )
                &&& forall|k: int| #[trigger]
                    tablelaws::last_set(sets, column, k) ==> match sets[k].1 {
                        Some(value) => x.get(column) == Some(value) && !x.is_null(column),
                        None => x.contains(column) && x.is_null(column),
                    }
                &&& rows[i].contains(column) && (forall|j: int|
                    0 <= j < sets.len() ==> !text::same_fold((#[trigger] sets[j]).0, column)) ==> agree(
                    rows[i],
                    x,
                    column,
                )
            }
        }),
{
    reveal(referential::source_step);
    let filter = c->Update_filter;
    let sets = c->Update_assignments;
    let none = SourceModel { rows: Seq::empty(), affected: 0, changes: Seq::empty() };
    update_starts(rows, t, s, filter, sets, cx, 0, none, i);
    let out = referential::source_step(c, rows, t, s, cx)->Ok_0;
    if predicate::passes(filter, rows[i], cx) {
        let between = images::set_from(rows[i], sets, 0);
        tablelaws::assigned_columns_hold_what_was_assigned(rows[i], sets, 0, column);
        rowlaws::a_stored_row_carries_its_values(between, s, cx.moment);
        let x = out.rows[i];
        assert(carries(between, x));
        if between.contains(column) {
            assert(agree(between, x, column));
        }
        assert forall|k: int| #[trigger] tablelaws::last_set(sets, column, k) implies match sets[k].1 {
            Some(value) => x.get(column) == Some(value) && !x.is_null(column),
            None => x.contains(column) && x.is_null(column),
        } by {
            assert(between.contains(column));
        }
    }
}

// ---------------------------------------------------------------------------------------------
// Children and their parents
// ---------------------------------------------------------------------------------------------
/// Whether a child has a parent: a row with its key; a child whose key is incomplete needs none.
pub open spec fn has_parent(child: RowModel, parents: Seq<RowModel>, k: ForeignKeyModel) -> bool {
    forall|key: Seq<Seq<u8>>| #[trigger]
        has_key(child, k.child_columns, key) ==> exists|j: int|
            0 <= j < parents.len() && has_key(#[trigger] parents[j], k.parent_columns, key)
}

/// A child has a parent where its key is incomplete, or a row has it.
pub proof fn parent_means(child: RowModel, parents: Seq<RowModel>, k: ForeignKeyModel)
    ensures
        fkeys::row_key(child, k.child_columns) is None || altercheck::any_row_key(
            parents,
            k.parent_columns,
            fkeys::row_key(child, k.child_columns),
        ) <==> has_parent(child, parents, k),
{
    match fkeys::row_key(child, k.child_columns) {
        None => {
            assert forall|key: Seq<Seq<u8>>| #[trigger]
                has_key(child, k.child_columns, key) implies exists|j: int|
                0 <= j < parents.len() && has_key(#[trigger] parents[j], k.parent_columns, key) by {
                key_means(child, k.child_columns, key);
            }
        },
        Some(key) => {
            key_means(child, k.child_columns, key);
            if altercheck::any_row_key(parents, k.parent_columns, Some(key)) {
                let j = choose|j: int|
                    0 <= j < parents.len() && fkeys::row_key(
                        #[trigger] parents[j],
                        k.parent_columns,
                    ) == Some(key);
                key_means(parents[j], k.parent_columns, key);
                assert(has_key(parents[j], k.parent_columns, key));
                assert forall|other: Seq<Seq<u8>>| #[trigger]
                    has_key(child, k.child_columns, other) implies exists|j: int|
                    0 <= j < parents.len() && has_key(#[trigger] parents[j], k.parent_columns, other) by {
                    key_means(child, k.child_columns, other);
                }
            }
            if has_parent(child, parents, k) {
                assert(has_key(child, k.child_columns, key));
                let j = choose|j: int|
                    0 <= j < parents.len() && has_key(#[trigger] parents[j], k.parent_columns, key);
                key_means(parents[j], k.parent_columns, key);
                assert(fkeys::row_key(parents[j], k.parent_columns) == Some(key));
            }
        },
    }
}

/// Rows in which every child has its parent are accepted.
pub proof fn children_with_parents_are_accepted(
    keys: Seq<ForeignKeyModel>,
    related: RelatedModel,
    initial: RelatedModel,
    at: int,
)
    requires
        0 <= at <= keys.len(),
        forall|n: int|
            0 <= n < keys.len() ==> assoc::lookup(related, (#[trigger] keys[n]).child_table) is Some
                && assoc::lookup(related, keys[n].parent_table) is Some,
        forall|n: int, i: int|
            0 <= n < keys.len() && 0 <= i < children(related, keys[n]).len() ==> has_parent(
                #[trigger] children(related, keys[n])[i],
                assoc::lookup(related, keys[n].parent_table)->0,
                keys[n],
            ),
    ensures
        referential::unmet_from(keys, related, initial, at) is None,
    decreases keys.len() - at,
{
    if at < keys.len() {
        let k = keys[at];
        let parents = assoc::lookup(related, k.parent_table)->0;
        assert forall|i: int| 0 <= i < children(related, k).len() implies !referential::parentless(
            #[trigger] children(related, k)[i],
            parents,
            k,
            initial,
        ) by {
            parent_means(children(related, keys[at])[i], parents, k);
        }
        children_with_parents_are_accepted(keys, related, initial, at + 1);
    }
}

/// A child without a parent is refused, unless the very row lacked its parent before.
pub proof fn children_without_parents_are_refused(
    keys: Seq<ForeignKeyModel>,
    related: RelatedModel,
    initial: RelatedModel,
    n: int,
    i: int,
)
    requires
        0 <= n < keys.len(),
        assoc::lookup(related, keys[n].child_table) is Some,
        assoc::lookup(related, keys[n].parent_table) is Some,
        0 <= i < children(related, keys[n]).len(),
        !has_parent(
            children(related, keys[n])[i],
            assoc::lookup(related, keys[n].parent_table)->0,
            keys[n],
        ),
        !(assoc::lookup(initial, keys[n].child_table) matches Some(before) && before.contains(
            children(related, keys[n])[i],
        )) || (assoc::lookup(initial, keys[n].parent_table) matches Some(parents) && has_parent(
            children(related, keys[n])[i],
            parents,
            keys[n],
        )),
    ensures
        referential::unmet_from(keys, related, initial, 0) is Some,
{
    let k = keys[n];
    let child = children(related, k)[i];
    parent_means(child, assoc::lookup(related, k.parent_table)->0, k);
    match assoc::lookup(initial, k.parent_table) {
        Some(parents) => parent_means(child, parents, k),
        None => {},
    }
    assert(referential::parentless(
        child,
        assoc::lookup(related, k.parent_table)->0,
        k,
        initial,
    ));
    unmet_at(keys, related, initial, 0, n, i);
}

proof fn unmet_at(
    keys: Seq<ForeignKeyModel>,
    related: RelatedModel,
    initial: RelatedModel,
    at: int,
    n: int,
    i: int,
)
    requires
        0 <= at <= n < keys.len(),
        assoc::lookup(related, keys[n].child_table) is Some,
        assoc::lookup(related, keys[n].parent_table) is Some,
        0 <= i < children(related, keys[n]).len(),
        referential::parentless(
            children(related, keys[n])[i],
            assoc::lookup(related, keys[n].parent_table)->0,
            keys[n],
            initial,
        ),
    ensures
        referential::unmet_from(keys, related, initial, at) is Some,
    decreases n - at,
{
    if at < n {
        unmet_at(keys, related, initial, at + 1, n, i);
    }
}

} // verus!
