//! What preparing a request for foreign keys comes to: what it leaves in the tables has a parent
//! for every child, and nothing that it changes is lost.
use crate::assoc;
use crate::commands;
use crate::commands::CommandModel;
use crate::database;
use crate::database::DatabaseModel;
use crate::fkeys;
use crate::fkeys::{ForeignKeyModel, ReferentialAction};
use crate::images;
use crate::keylaws;
use crate::keylaws::{children, has_key, has_parent, loses, without_key};
use crate::predicate;
use crate::predicate::{ContextModel, PredicateModel};
use crate::prepare;
use crate::prepare::WalkModel;
use crate::referential;
use crate::referential::{CascadeModel, ChangeModel, RelatedModel, SourceModel};
use crate::row::RowModel;
use crate::schema::SchemaModel;
use crate::store;
use crate::store::StoreModel;
use crate::table;
use crate::table::TableModel;
use crate::validate::TablesModel;
use crate::values;
use vstd::prelude::*;

verus! {

// ---------------------------------------------------------------------------------------------
// Which keys and tables are looked at
// ---------------------------------------------------------------------------------------------
proof fn keys_upto_has(tables: TablesModel, n: int, k: ForeignKeyModel)
    requires
        0 <= n <= tables.len(),
    ensures
        prepare::keys_upto(tables, n).contains(k) <==> exists|i: int|
            0 <= i < n && fkeys::foreign_keys((#[trigger] tables[i]).0, tables[i].1).contains(k),
    decreases n,
{
    if n > 0 {
        keys_upto_has(tables, n - 1, k);
        let front = prepare::keys_upto(tables, n - 1);
        let last = fkeys::foreign_keys(tables[n - 1].0, tables[n - 1].1);
        let all = front + last;
        if all.contains(k) {
            let j = all.index_of(k);
            if j < front.len() {
                assert(front[j] == k);
                assert(front.contains(k));
            } else {
                assert(last[j - front.len()] == k);
                assert(last.contains(k));
                assert(tables[n - 1] == tables[n - 1]);
            }
        }
        if front.contains(k) {
            assert(all[front.index_of(k)] == k);
        }
        if last.contains(k) {
            assert(all[front.len() + last.index_of(k)] == k);
        }
    }
}

/// The keys of a database are those of its tables, all of them.
pub proof fn every_foreign_key_is_collected(tables: TablesModel, k: ForeignKeyModel)
    ensures
        prepare::all_keys(tables).contains(k) <==> exists|i: int|
            0 <= i < tables.len() && fkeys::foreign_keys(
                (#[trigger] tables[i]).0,
                tables[i].1,
            ).contains(k),
{
    keys_upto_has(tables, tables.len() as int, k);
}

proof fn named(names: Seq<Seq<char>>, name: Seq<char>, other: Seq<char>)
    requires
        assoc::ascending(names),
    ensures
        assoc::ascending(assoc::with_name(names, name)),
        assoc::with_name(names, name).contains(other) <==> names.contains(other) || other == name,
{
    assoc::with_name_ascending(names, name);
    assert(assoc::with_name(names, name).to_set().contains(other) == assoc::with_name(
        names,
        name,
    ).contains(other));
    assert(names.to_set().contains(other) == names.contains(other));
}

proof fn related_has(keys: Seq<ForeignKeyModel>, at: int, names: Seq<Seq<char>>, name: Seq<char>)
    requires
        0 <= at <= keys.len(),
        assoc::ascending(names),
    ensures
        prepare::related_from(keys, at, names).contains(name) <==> names.contains(name) || exists|
            n: int,
        |
            at <= n < keys.len() && ((#[trigger] keys[n]).child_table == name || keys[n].parent_table
                == name),
    decreases keys.len() - at,
{
    if at < keys.len() {
        let one = assoc::with_name(names, keys[at].child_table);
        named(names, keys[at].child_table, name);
        named(one, keys[at].parent_table, name);
        related_has(keys, at + 1, assoc::with_name(one, keys[at].parent_table), name);
    }
}

/// The related tables are the child tables and the parent tables of the keys.
pub proof fn keys_relate_their_tables(keys: Seq<ForeignKeyModel>, name: Seq<char>)
    ensures
        prepare::related_tables(keys).contains(name) <==> exists|n: int|
            0 <= n < keys.len() && ((#[trigger] keys[n]).child_table == name || keys[n].parent_table
                == name),
{
    related_has(keys, 0, Seq::empty(), name);
}

proof fn images_are(
    db: DatabaseModel,
    names: Seq<Seq<char>>,
    at: int,
    done: RelatedModel,
    name: Seq<char>,
)
    requires
        0 <= at <= names.len(),
    ensures
        prepare::images_from(db, names, at, done) matches Ok(related) ==> {
            &&& (exists|i: int| at <= i < names.len() && (#[trigger] names[i]) == name) ==> (
            database::table_of(db, name) matches Some(t) && assoc::lookup(related, name) == Some(
                t.rows(),
            ))
            &&& !(exists|i: int| at <= i < names.len() && (#[trigger] names[i]) == name)
                ==> assoc::lookup(related, name) == assoc::lookup(done, name)
        },
        prepare::images_from(db, names, at, done) is Err <==> exists|i: int|
            at <= i < names.len() && database::table_of(db, #[trigger] names[i]) is None,
    decreases names.len() - at,
{
    if at < names.len() {
        match database::table_of(db, names[at]) {
            None => {
                assert(names[at] == names[at]);
            },
            Some(t) => {
                let more = assoc::with_entry(done, names[at], t.rows());
                assoc::set_then_lookup(done, names[at], t.rows(), name);
                images_are(db, names, at + 1, more, name);
            },
        }
    }
}

/// A request is played against the stored rows of the related tables.
pub proof fn images_are_those_of_the_tables(db: DatabaseModel, names: Seq<Seq<char>>, name: Seq<char>)
    ensures
        prepare::images_from(db, names, 0, Seq::empty()) matches Ok(related) ==> {
            &&& names.contains(name) ==> (database::table_of(db, name) matches Some(t)
                && assoc::lookup(related, name) == Some(t.rows()))
            &&& !names.contains(name) ==> assoc::lookup(related, name) is None
        },
        prepare::images_from(db, names, 0, Seq::empty()) is Err <==> exists|i: int|
            0 <= i < names.len() && database::table_of(db, #[trigger] names[i]) is None,
{
    images_are(db, names, 0, Seq::empty(), name);
    assert(assoc::lookup(Seq::<(Seq<char>, Seq<RowModel>)>::empty(), name) is None);
    if names.contains(name) {
        assert(names[names.index_of(name)] == name);
    }
}

// ---------------------------------------------------------------------------------------------
// Which tables a statement changes
// ---------------------------------------------------------------------------------------------
proof fn none_passes(rows: Seq<RowModel>, filter: Option<PredicateModel>, cx: ContextModel)
    requires
        rows.filter(table::passes_fn(filter, cx)).len() == 0,
    ensures
        images::kept(rows, filter, cx) == rows,
    decreases rows.len(),
{
    reveal(Seq::filter);
    let p = table::passes_fn(filter, cx);
    let q = images::kept_fn(filter, cx);
    if rows.len() > 0 {
        let front = rows.drop_last();
        assert(!p(rows.last()));
        none_passes(front, filter, cx);
        assert(q(rows.last()));
        assert(rows =~= front.push(rows.last()));
    } else {
        assert(rows.filter(q) =~= rows);
    }
}

proof fn update_source_changes(
    rows: Seq<RowModel>,
    t: Seq<char>,
    s: SchemaModel,
    filter: Option<PredicateModel>,
    sets: crate::commands::SetModel,
    cx: ContextModel,
    at: int,
    done: SourceModel,
)
    requires
        0 <= at <= rows.len(),
        forall|i: int| 0 <= i < done.changes.len() ==> (#[trigger] done.changes[i]).table == t,
    ensures
        referential::update_source(rows, t, s, filter, sets, cx, at, done) matches Ok(out) ==> {
            &&& out.changes.len() >= done.changes.len()
            &&& out.changes.len() == done.changes.len() ==> out.rows == done.rows + rows.skip(at)
            &&& forall|i: int| 0 <= i < out.changes.len() ==> (#[trigger] out.changes[i]).table == t
        },
    decreases rows.len() - at,
{
    if at < rows.len() {
        assert(rows.skip(at) =~= seq![rows[at]] + rows.skip(at + 1));
        if !predicate::passes(filter, rows[at], cx) {
            let next = SourceModel { rows: done.rows.push(rows[at]), ..done };
            update_source_changes(rows, t, s, filter, sets, cx, at + 1, next);
            assert(next.rows + rows.skip(at + 1) =~= done.rows + rows.skip(at));
        } else {
            match values::materialized(images::set_from(rows[at], sets, 0), s, cx.moment) {
                Err(_) => {},
                Ok(after) => {
                    let next = SourceModel {
                        rows: done.rows.push(after),
                        affected: done.affected.saturating_add(1),
                        changes: done.changes.push(
                            ChangeModel { table: t, before: rows[at], after: Some(after) },
                        ),
                    };
                    update_source_changes(rows, t, s, filter, sets, cx, at + 1, next);
                },
            }
        }
    } else {
        assert(done.rows + rows.skip(at) =~= done.rows);
    }
}

/// A statement changes the rows of its table only, and says so where it changes them: it counts a
/// row or names a change.
pub proof fn a_source_names_its_changes(
    c: CommandModel,
    schemas: TablesModel,
    related: RelatedModel,
    cx: ContextModel,
    name: Seq<char>,
)
    requires
        !(c is ReplaceRows),
        referential::sourced(c, schemas, related, cx) is Ok,
    ensures
        ({
            let (after, n, changes) = referential::sourced(c, schemas, related, cx)->Ok_0;
            let t = (commands::rows_target(c)->0).1;
            &&& name != t || (n == 0 && changes.len() == 0) ==> assoc::lookup(after, name)
                == assoc::lookup(related, name)
            &&& forall|i: int| 0 <= i < changes.len() ==> (#[trigger] changes[i]).table == t
        }),
{
    reveal(referential::source_step);
    let (after, n, changes) = referential::sourced(c, schemas, related, cx)->Ok_0;
    let t = (commands::rows_target(c)->0).1;
    let s = assoc::lookup(schemas, t)->0;
    let rows = assoc::lookup(related, t)->0;
    let out = referential::source_step(c, rows, t, s, cx)->Ok_0;
    assoc::set_then_lookup(related, t, out.rows, name);
    match c {
        CommandModel::Update { filter, assignments, .. } => {
            let start = SourceModel { rows: Seq::empty(), affected: 0, changes: Seq::empty() };
            update_source_changes(rows, t, s, filter, assignments, cx, 0, start);
            assert(start.rows + rows.skip(0) =~= rows);
        },
        CommandModel::Delete { filter, .. } => {
            let gone = rows.filter(table::passes_fn(filter, cx));
            if gone.len() == 0 {
                none_passes(rows, filter, cx);
            }
        },
        _ => {},
    }
}

proof fn named_changes_has(changes: Seq<ChangeModel>, at: int, names: Seq<Seq<char>>, name: Seq<char>)
    requires
        0 <= at <= changes.len(),
        assoc::ascending(names),
    ensures
        assoc::ascending(prepare::named_changes(changes, at, names)),
        prepare::named_changes(changes, at, names).contains(name) <==> names.contains(name)
            || exists|i: int| at <= i < changes.len() && (#[trigger] changes[i]).table == name,
    decreases changes.len() - at,
{
    if at < changes.len() {
        named(names, changes[at].table, name);
        named_changes_has(changes, at + 1, assoc::with_name(names, changes[at].table), name);
    }
}

/// Whether a step of a cascade has named what it changed.
spec fn names_changes(a: CascadeModel, b: CascadeModel, name: Seq<char>) -> bool {
    &&& assoc::ascending(b.changed)
    &&& a.changed.contains(name) ==> b.changed.contains(name)
    &&& !b.changed.contains(name) ==> assoc::lookup(b.related, name) == assoc::lookup(
        a.related,
        name,
    )
}

proof fn key_step_tracks(
    state: CascadeModel,
    c: ChangeModel,
    k: ForeignKeyModel,
    schemas: TablesModel,
    cx: ContextModel,
    name: Seq<char>,
)
    requires
        assoc::ascending(state.changed),
    ensures
        referential::key_step(state, c, k, schemas, cx) matches Ok(next) ==> names_changes(
            state,
            next,
            name,
        ),
{
    reveal(referential::key_step);
    named(state.changed, k.child_table, name);
    match referential::key_step(state, c, k, schemas, cx) {
        Ok(next) => {
            if next != state {
                assoc::set_then_lookup(
                    state.related,
                    k.child_table,
                    assoc::lookup(next.related, k.child_table)->0,
                    name,
                );
                match referential::effect_of(c, k) {
                    Some(e) => {
                        let rows = assoc::lookup(state.related, k.child_table)->0;
                        let s = assoc::lookup(schemas, k.child_table)->0;
                        let (after, _) = referential::children_down(
                            rows,
                            rows.len() - 1,
                            k,
                            e,
                            s,
                            state.pending,
                            cx,
                        )->Ok_0;
                        assoc::set_then_lookup(state.related, k.child_table, after, name);
                    },
                    None => {},
                }
            }
        },
        Err(_) => {},
    }
}

proof fn keys_track(
    state: CascadeModel,
    c: ChangeModel,
    keys: Seq<ForeignKeyModel>,
    schemas: TablesModel,
    cx: ContextModel,
    at: int,
    name: Seq<char>,
)
    requires
        assoc::ascending(state.changed),
        0 <= at <= keys.len(),
    ensures
        referential::keys_from(state, c, keys, schemas, cx, at) matches Ok(next) ==> names_changes(
            state,
            next,
            name,
        ),
    decreases keys.len() - at,
{
    if at < keys.len() {
        key_step_tracks(state, c, keys[at], schemas, cx, name);
        match referential::key_step(state, c, keys[at], schemas, cx) {
            Ok(next) => {
                keys_track(next, c, keys, schemas, cx, at + 1, name);
            },
            Err(_) => {},
        }
    }
}

proof fn cascade_tracks(
    state: CascadeModel,
    keys: Seq<ForeignKeyModel>,
    schemas: TablesModel,
    cx: ContextModel,
    processed: int,
    name: Seq<char>,
)
    requires
        assoc::ascending(state.changed),
    ensures
        referential::cascaded(state, keys, schemas, cx, processed) matches Ok(next) ==> names_changes(
            state,
            next,
            name,
        ),
    decreases referential::CASCADE_LIMIT - processed,
{
    if state.pending.len() > 0 && processed < referential::CASCADE_LIMIT {
        let rest = CascadeModel { pending: state.pending.drop_first(), ..state };
        keys_track(rest, state.pending[0], keys, schemas, cx, 0, name);
        match referential::keys_from(rest, state.pending[0], keys, schemas, cx, 0) {
            Ok(next) => {
                cascade_tracks(next, keys, schemas, cx, processed + 1, name);
            },
            Err(_) => {},
        }
    }
}

/// A statement behind the prepared prefix names every table whose rows it or a foreign key
/// changes, and what it leaves meets the foreign keys.
pub proof fn a_statement_names_what_it_changes(
    w: WalkModel,
    c: CommandModel,
    keys: Seq<ForeignKeyModel>,
    schemas: TablesModel,
    cx: ContextModel,
    name: Seq<char>,
)
    requires
        !(c is ReplaceRows),
        assoc::ascending(w.changed),
        prepare::walk_step(w, c, false, keys, schemas, cx) is Ok,
    ensures
        ({
            let next = prepare::walk_step(w, c, false, keys, schemas, cx)->Ok_0;
            &&& assoc::ascending(next.changed)
            &&& w.changed.contains(name) ==> next.changed.contains(name)
            &&& !next.changed.contains(name) ==> assoc::lookup(next.related, name)
                == assoc::lookup(w.related, name)
            &&& next.retained == w.retained
            &&& next.started
            &&& next.initial == if w.started {
                w.initial
            } else {
                w.related
            }
            &&& referential::unmet_from(keys, next.related, next.initial, 0) is None
        }),
{
    reveal(prepare::walk_step);
    let (related, n, changes) = referential::sourced(c, schemas, w.related, cx)->Ok_0;
    let t = (commands::rows_target(c)->0).1;
    a_source_names_its_changes(c, schemas, w.related, cx, name);
    named(w.changed, t, name);
    let changed = if n > 0 {
        assoc::with_name(w.changed, t)
    } else {
        w.changed
    };
    named_changes_has(changes, 0, changed, name);
    let start = CascadeModel {
        related: related,
        changed: prepare::named_changes(changes, 0, changed),
        pending: changes,
    };
    cascade_tracks(start, keys, schemas, cx, 0, name);
    if changes.len() > 0 {
        assert(changes[0].table == t);
    }
}

/// A statement counts the rows that it says it changes on top of those before it.
pub proof fn a_statement_counts_its_rows(
    w: WalkModel,
    c: CommandModel,
    in_prefix: bool,
    keys: Seq<ForeignKeyModel>,
    schemas: TablesModel,
    cx: ContextModel,
)
    requires
        prepare::walk_step(w, c, in_prefix, keys, schemas, cx) is Ok,
    ensures
        ({
            let next = prepare::walk_step(w, c, in_prefix, keys, schemas, cx)->Ok_0;
            let t = (commands::rows_target(c)->0).1;
            let rows = assoc::lookup(w.related, t)->0;
            let more = next.affected - w.affected;
            &&& c is Insert && w.affected < u64::MAX ==> more == 1
            &&& c matches CommandModel::Delete { filter, .. } ==> {
                let gone = rows.filter(|r: RowModel| predicate::passes(filter, r, cx)).len();
                w.affected + gone <= u64::MAX ==> more == gone
            }
            &&& c matches CommandModel::ReplaceRows { affected_rows, .. } ==> w.affected
                + affected_rows <= u64::MAX ==> more == affected_rows
        }),
{
    reveal(prepare::walk_step);
    reveal(referential::source_step);
    match c {
        CommandModel::Delete { filter, .. } => {
            assert(table::passes_fn(filter, cx) =~= (|r: RowModel| predicate::passes(
                filter,
                r,
                cx,
            )));
        },
        _ => {},
    }
}

/// Commands of the prepared prefix are played as they stand: no foreign key is followed.
pub proof fn the_prefix_is_played_as_it_stands(
    w: WalkModel,
    c: CommandModel,
    keys: Seq<ForeignKeyModel>,
    schemas: TablesModel,
    cx: ContextModel,
    other: Seq<char>,
)
    requires
        prepare::walk_step(w, c, true, keys, schemas, cx) is Ok,
    ensures
        ({
            let next = prepare::walk_step(w, c, true, keys, schemas, cx)->Ok_0;
            let t = (commands::rows_target(c)->0).1;
            let rows = assoc::lookup(w.related, t)->0;
            &&& other != t ==> assoc::lookup(next.related, other) == assoc::lookup(w.related, other)
            &&& c matches CommandModel::Delete { filter, .. } ==> assoc::lookup(next.related, t)
                == Some(rows.filter(|r: RowModel| !predicate::passes(filter, r, cx)))
            &&& c matches CommandModel::Insert { row, .. } ==> (values::materialized(
                row,
                assoc::lookup(schemas, t)->0,
                cx.moment,
            ) matches Ok(full) && assoc::lookup(next.related, t) == Some(rows.push(full)))
            &&& next.initial == w.initial
            &&& next.started == w.started
            &&& next.retained == w.retained
        }),
{
    reveal(prepare::walk_step);
    reveal(referential::source_step);
    let t = (commands::rows_target(c)->0).1;
    let rows = assoc::lookup(w.related, t)->0;
    let s = assoc::lookup(schemas, t)->0;
    let out = referential::source_step(c, rows, t, s, cx)->Ok_0;
    assoc::set_then_lookup(w.related, t, out.rows, other);
    match c {
        CommandModel::Delete { filter, .. } => {
            assert(images::kept_fn(filter, cx) =~= (|r: RowModel| !predicate::passes(
                filter,
                r,
                cx,
            )));
        },
        _ => {},
    }
}

// ---------------------------------------------------------------------------------------------
// Requests
// ---------------------------------------------------------------------------------------------
/// The rows of a table behind the first `n` commands of a prepared request.
pub open spec fn rows_left(
    out: Seq<CommandModel>,
    d: Seq<char>,
    name: Seq<char>,
    stored: Seq<RowModel>,
    n: int,
) -> Seq<RowModel>
    decreases n,
{
    if n <= 0 {
        stored
    } else {
        match out[n - 1] {
            CommandModel::ReplaceRows { database, table, rows, .. } => if database == d && table
                == name {
                rows
            } else {
                rows_left(out, d, name, stored, n - 1)
            },
            _ => rows_left(out, d, name, stored, n - 1),
        }
    }
}

/// Whether a request holds statements only, and no table images.
pub open spec fn of_statements(list: Seq<CommandModel>) -> bool {
    forall|i: int| 0 <= i < list.len() ==> !((#[trigger] list[i]) is ReplaceRows)
}

proof fn walk_keeps(
    w: WalkModel,
    list: Seq<CommandModel>,
    d: Seq<char>,
    names: Seq<Seq<char>>,
    keys: Seq<ForeignKeyModel>,
    schemas: TablesModel,
    cx: ContextModel,
    at: int,
    name: Seq<char>,
)
    requires
        0 <= at <= list.len(),
        w.started,
        assoc::ascending(w.changed),
        of_statements(list),
        prepare::walked_from(w, list, d, names, 0, keys, schemas, cx, at) is Ok,
        !(exists|i: int| at <= i < list.len() && prepare::is_related(#[trigger] list[i], d, names))
            ==> referential::unmet_from(keys, w.related, w.initial, 0) is None,
    ensures
        ({
            let end = prepare::walked_from(w, list, d, names, 0, keys, schemas, cx, at)->Ok_0;
            &&& w.changed.contains(name) ==> end.changed.contains(name)
            &&& !end.changed.contains(name) ==> assoc::lookup(end.related, name) == assoc::lookup(
                w.related,
                name,
            )
            &&& end.initial == w.initial
            &&& referential::unmet_from(keys, end.related, end.initial, 0) is None
            &&& end.retained == w.retained + list.skip(at).filter(
                |c: CommandModel| !prepare::is_related(c, d, names),
            )
        }),
    decreases list.len() - at,
{
    let other = |c: CommandModel| !prepare::is_related(c, d, names);
    if at < list.len() {
        assert(list.skip(at) =~= seq![list[at]] + list.skip(at + 1));
        Seq::filter_distributes_over_add(seq![list[at]], list.skip(at + 1), other);
        crate::search::singleton_filter(list[at], other);
        if !prepare::is_related(list[at], d, names) {
            let next = WalkModel { retained: w.retained.push(list[at]), ..w };
            assert(!(exists|i: int|
                at + 1 <= i < list.len() && prepare::is_related(#[trigger] list[i], d, names))
                ==> !(exists|i: int|
                at <= i < list.len() && prepare::is_related(#[trigger] list[i], d, names)));
            walk_keeps(next, list, d, names, keys, schemas, cx, at + 1, name);
            assert(w.retained.push(list[at]) + list.skip(at + 1).filter(other) =~= w.retained
                + list.skip(at).filter(other));
        } else {
            a_statement_names_what_it_changes(w, list[at], keys, schemas, cx, name);
            let next = prepare::walk_step(w, list[at], false, keys, schemas, cx)->Ok_0;
            walk_keeps(next, list, d, names, keys, schemas, cx, at + 1, name);
            assert(list.skip(at).filter(other) =~= list.skip(at + 1).filter(other));
        }
    } else {
        reveal(Seq::filter);
        assert(list.skip(at) =~= Seq::empty());
        assert(w.retained + list.skip(at).filter(other) =~= w.retained);
    }
}

proof fn replacements_are(
    changed: Seq<Seq<char>>,
    related: RelatedModel,
    affected: u64,
    d: Seq<char>,
    at: int,
    done: Seq<CommandModel>,
)
    requires
        0 <= at <= changed.len(),
    ensures
        ({
            let out = prepare::replacements_from(changed, related, affected, d, at, done);
            &&& out.len() == done.len() + changed.len() - at
            &&& forall|i: int| 0 <= i < done.len() ==> (#[trigger] out[i]) == done[i]
            &&& forall|i: int|
                done.len() <= i < out.len() ==> (#[trigger] out[i]) == (CommandModel::ReplaceRows {
                    database: d,
                    table: changed[at + i - done.len()],
                    rows: match assoc::lookup(related, changed[at + i - done.len()]) {
                        Some(rows) => rows,
                        None => Seq::empty(),
                    },
                    affected_rows: if at + i - done.len() == 0 {
                        affected
                    } else {
                        0
                    },
                })
        }),
    decreases changed.len() - at,
{
    if at < changed.len() {
        let c = CommandModel::ReplaceRows {
            database: d,
            table: changed[at],
            rows: match assoc::lookup(related, changed[at]) {
                Some(rows) => rows,
                None => Seq::empty(),
            },
            affected_rows: if at == 0 {
                affected
            } else {
                0
            },
        };
        replacements_are(changed, related, affected, d, at + 1, done.push(c));
        let out = prepare::replacements_from(changed, related, affected, d, at, done);
        assert forall|i: int| 0 <= i < done.len() implies (#[trigger] out[i]) == done[i] by {
            assert(out[i] == done.push(c)[i]);
        }
        assert(out[done.len() as int] == done.push(c)[done.len() as int]);
    }
}

/// The changed tables stand behind the other commands of a request, one image each; the first
/// carries the count of all rows.
pub proof fn changed_tables_are_written_out(
    changed: Seq<Seq<char>>,
    related: RelatedModel,
    affected: u64,
    d: Seq<char>,
    retained: Seq<CommandModel>,
    i: int,
)
    ensures
        ({
            let out = prepare::replacements_from(changed, related, affected, d, 0, retained);
            &&& out.len() == retained.len() + changed.len()
            &&& 0 <= i < retained.len() ==> out[i] == retained[i]
            &&& 0 <= i < changed.len() && assoc::lookup(related, changed[i]) is Some ==> (
            out[retained.len() + i] matches CommandModel::ReplaceRows {
                database,
                table,
                rows,
                affected_rows,
            } && database == d && table == changed[i] && assoc::lookup(related, changed[i]) == Some(
                rows,
            ) && affected_rows == if i == 0 {
                affected
            } else {
                0
            })
        }),
{
    replacements_are(changed, related, affected, d, 0, retained);
}

proof fn left_retained(
    out: Seq<CommandModel>,
    d: Seq<char>,
    name: Seq<char>,
    stored: Seq<RowModel>,
    n: int,
)
    requires
        0 <= n <= out.len(),
        forall|i: int|
            0 <= i < n ==> !((#[trigger] out[i]) matches CommandModel::ReplaceRows {
                database,
                table,
                ..
            } && database == d && table == name),
    ensures
        rows_left(out, d, name, stored, n) == stored,
    decreases n,
{
    if n > 0 {
        left_retained(out, d, name, stored, n - 1);
    }
}

proof fn left_changed(
    out: Seq<CommandModel>,
    d: Seq<char>,
    name: Seq<char>,
    stored: Seq<RowModel>,
    rows: Seq<RowModel>,
    k: int,
    n: int,
)
    requires
        0 <= k < n <= out.len(),
        out[k] matches CommandModel::ReplaceRows { database, table, rows: given, .. } && database == d
            && table == name && given == rows,
        forall|i: int|
            k <= i < n ==> match #[trigger] out[i] {
                CommandModel::ReplaceRows { database, table, rows: given, .. } => database == d
                    && table == name ==> given == rows,
                _ => true,
            },
    ensures
        rows_left(out, d, name, stored, n) == rows,
    decreases n,
{
    if k < n - 1 {
        left_changed(out, d, name, stored, rows, k, n - 1);
    }
}

/// A related table of a prepared request is left with the rows that the walk came to.
proof fn left_is(
    list: Seq<CommandModel>,
    d: Seq<char>,
    names: Seq<Seq<char>>,
    end: WalkModel,
    out: Seq<CommandModel>,
    name: Seq<char>,
    stored: Seq<RowModel>,
)
    requires
        out == prepare::replacements_from(end.changed, end.related, end.affected, d, 0, end.retained),
        end.retained == list.filter(|c: CommandModel| !prepare::is_related(c, d, names)),
        names.contains(name),
        of_statements(list),
        assoc::lookup(end.related, name) is Some,
        !end.changed.contains(name) ==> assoc::lookup(end.related, name) == Some(stored),
    ensures
        assoc::lookup(end.related, name) == Some(
            rows_left(out, d, name, stored, out.len() as int),
        ),
{
    let other = |c: CommandModel| !prepare::is_related(c, d, names);
    replacements_are(end.changed, end.related, end.affected, d, 0, end.retained);
    let m = end.retained.len();
    assert forall|i: int| 0 <= i < m implies !((#[trigger] out[i]) is ReplaceRows) by {
        assert(out[i] == end.retained[i]);
        crate::seqs::filter_holds(list, other, end.retained[i]);
        assert(end.retained.contains(end.retained[i]));
        let j = list.index_of(end.retained[i]);
        assert(!(list[j] is ReplaceRows));
    }
    let rows = assoc::lookup(end.related, name)->0;
    if end.changed.contains(name) {
        let k = end.changed.index_of(name);
        assert(out[m + k] matches CommandModel::ReplaceRows { table, .. } && table == name);
        left_changed(out, d, name, stored, rows, m + k, out.len() as int);
    } else {
        assert forall|i: int| 0 <= i < out.len() implies !((
        #[trigger] out[i]) matches CommandModel::ReplaceRows { database, table, .. } && database == d
            && table == name) by {
            if i >= m {
                assert(end.changed.contains(end.changed[i - m]));
            }
        }
        left_retained(out, d, name, stored, out.len() as int);
    }
}

/// A request that is prepared leaves a parent for every child: in what it makes of the tables,
/// each row of a child table whose key is complete has a parent, unless the very row was stored
/// without one before.
pub proof fn prepared_requests_leave_no_orphans(
    list: Seq<CommandModel>,
    d: Seq<char>,
    s: StoreModel,
    cx: ContextModel,
    db: DatabaseModel,
    out: Seq<CommandModel>,
    k: ForeignKeyModel,
    child: RowModel,
)
    requires
        store::database_of(s, d) == Some(db),
        of_statements(list),
        prepare::any_related(
            list,
            d,
            prepare::related_tables(prepare::all_keys(prepare::schemas_of(db))),
        ),
        prepare::referential_in(list, d, 0, s, cx) == Ok::<Seq<CommandModel>, Seq<char>>(out),
        prepare::all_keys(prepare::schemas_of(db)).contains(k),
        database::table_of(db, k.child_table) matches Some(t) && rows_left(
            out,
            d,
            k.child_table,
            t.rows(),
            out.len() as int,
        ).contains(child),
    ensures
        database::table_of(db, k.parent_table) matches Some(p) && (has_parent(
            child,
            rows_left(out, d, k.parent_table, p.rows(), out.len() as int),
            k,
        ) || ((database::table_of(db, k.child_table)->0).rows().contains(child) && !has_parent(
            child,
            p.rows(),
            k,
        ))),
{
    reveal(prepare::referential_in);
    let schemas = prepare::schemas_of(db);
    let keys = prepare::all_keys(schemas);
    let names = prepare::related_tables(keys);
    let n = keys.index_of(k);
    assert(keys[n] == k);
    keys_relate_their_tables(keys, k.child_table);
    keys_relate_their_tables(keys, k.parent_table);
    images_are_those_of_the_tables(db, names, k.child_table);
    images_are_those_of_the_tables(db, names, k.parent_table);
    let related = prepare::images_from(db, names, 0, Seq::empty())->Ok_0;
    let w = WalkModel {
        related: related,
        initial: related,
        started: true,
        changed: Seq::empty(),
        affected: 0,
        retained: Seq::empty(),
    };
    let end = prepare::walked_from(w, list, d, names, 0, keys, schemas, cx, 0)->Ok_0;
    walk_keeps(w, list, d, names, keys, schemas, cx, 0, k.child_table);
    walk_keeps(w, list, d, names, keys, schemas, cx, 0, k.parent_table);
    assert(list.skip(0) =~= list);
    let other = |c: CommandModel| !prepare::is_related(c, d, names);
    assert(Seq::<CommandModel>::empty() + list.filter(other) =~= list.filter(other));
    referential::met_keys_lookups(keys, end.related, end.initial, n);
    let c = (database::table_of(db, k.child_table)->0).rows();
    let p = (database::table_of(db, k.parent_table)->0).rows();
    left_is(list, d, names, end, out, k.child_table, c);
    left_is(list, d, names, end, out, k.parent_table, p);
    let i = children(end.related, k).index_of(child);
    if !has_parent(child, rows_left(out, d, k.parent_table, p, out.len() as int), k) && !(c.contains(
        child,
    ) && !has_parent(child, p, k)) {
        keylaws::children_without_parents_are_refused(keys, end.related, end.initial, n, i);
    }
}

/// A request that touches no related table is left as it is.
pub proof fn unrelated_requests_stay(
    list: Seq<CommandModel>,
    d: Seq<char>,
    prefix: nat,
    s: StoreModel,
    cx: ContextModel,
)
    ensures
        store::database_of(s, d) is None ==> prepare::referential_in(list, d, prefix, s, cx) is Err,
        store::database_of(s, d) matches Some(db) && (forall|i: int|
            0 <= i < list.len() ==> !((commands::rows_target(#[trigger] list[i])) matches Some(
                target,
            ) && target.0 == d && exists|n: int|
                0 <= n < prepare::all_keys(prepare::schemas_of(db)).len() && ((
                #[trigger] prepare::all_keys(prepare::schemas_of(db))[n]).child_table == target.1
                    || prepare::all_keys(prepare::schemas_of(db))[n].parent_table == target.1)))
            ==> prepare::referential_in(list, d, prefix, s, cx) == Ok::<
            Seq<CommandModel>,
            Seq<char>,
        >(list),
{
    reveal(prepare::referential_in);
    match store::database_of(s, d) {
        Some(db) => {
            let keys = prepare::all_keys(prepare::schemas_of(db));
            let names = prepare::related_tables(keys);
            if prepare::any_related(list, d, names) {
                let i = choose|i: int|
                    0 <= i < list.len() && prepare::is_related(#[trigger] list[i], d, names);
                let target = commands::rows_target(list[i])->0;
                keys_relate_their_tables(keys, target.1);
            }
        },
        None => {},
    }
}

proof fn touched_has(list: Seq<CommandModel>, at: int, names: Seq<Seq<char>>, d: Seq<char>)
    requires
        0 <= at <= list.len(),
        assoc::ascending(names),
    ensures
        prepare::touched_from(list, at, names).contains(d) <==> names.contains(d) || exists|i: int|
            at <= i < list.len() && ((commands::rows_target(#[trigger] list[i])) matches Some(
                target,
            ) && target.0 == d),
    decreases list.len() - at,
{
    if at < list.len() {
        match commands::rows_target(list[at]) {
            Some((e, _)) => {
                named(names, e, d);
                touched_has(list, at + 1, assoc::with_name(names, e), d);
            },
            None => {
                touched_has(list, at + 1, names, d);
            },
        }
    }
}

/// The databases that a request is prepared for are those whose rows it changes.
pub proof fn every_touched_database_is_looked_at(list: Seq<CommandModel>, d: Seq<char>)
    ensures
        prepare::touched(list).contains(d) <==> exists|i: int|
            0 <= i < list.len() && ((commands::rows_target(#[trigger] list[i])) matches Some(
                target,
            ) && target.0 == d),
{
    touched_has(list, 0, Seq::empty(), d);
}

proof fn references_first(
    list: Seq<CommandModel>,
    names: Seq<Seq<char>>,
    prefix: nat,
    s: StoreModel,
    cx: ContextModel,
    at: int,
    n: int,
)
    requires
        0 <= at <= n < names.len(),
        forall|i: int|
            at <= i < n ==> prepare::referential_in(list, #[trigger] names[i], prefix, s, cx) == Ok::<
                Seq<CommandModel>,
                Seq<char>,
            >(list),
        prepare::referential_in(list, names[n], prefix, s, cx) is Err,
    ensures
        prepare::referential_from(list, names, prefix, s, cx, at) is Err,
    decreases n - at,
{
    if at < n {
        references_first(list, names, prefix, s, cx, at + 1, n);
    }
}

proof fn references_alone(
    list: Seq<CommandModel>,
    names: Seq<Seq<char>>,
    prefix: nat,
    s: StoreModel,
    cx: ContextModel,
    at: int,
    n: int,
    out: Seq<CommandModel>,
)
    requires
        0 <= at <= n < names.len(),
        forall|i: int|
            at <= i < n ==> prepare::referential_in(list, #[trigger] names[i], prefix, s, cx) == Ok::<
                Seq<CommandModel>,
                Seq<char>,
            >(list),
        prepare::referential_in(list, names[n], prefix, s, cx) == Ok::<Seq<CommandModel>, Seq<char>>(
            out,
        ),
        forall|i: int|
            n < i < names.len() ==> prepare::referential_in(out, #[trigger] names[i], prefix, s, cx)
                == Ok::<Seq<CommandModel>, Seq<char>>(out),
    ensures
        prepare::referential_from(list, names, prefix, s, cx, at) == Ok::<
            Seq<CommandModel>,
            Seq<char>,
        >(out),
    decreases n - at,
{
    if at < n {
        references_alone(list, names, prefix, s, cx, at + 1, n, out);
    } else {
        references_idle(out, names, prefix, s, cx, n + 1);
    }
}

proof fn references_idle(
    out: Seq<CommandModel>,
    names: Seq<Seq<char>>,
    prefix: nat,
    s: StoreModel,
    cx: ContextModel,
    at: int,
)
    requires
        0 <= at <= names.len(),
        forall|i: int|
            at <= i < names.len() ==> prepare::referential_in(
                out,
                #[trigger] names[i],
                prefix,
                s,
                cx,
            ) == Ok::<Seq<CommandModel>, Seq<char>>(out),
    ensures
        prepare::referential_from(out, names, prefix, s, cx, at) == Ok::<
            Seq<CommandModel>,
            Seq<char>,
        >(out),
    decreases names.len() - at,
{
    if at < names.len() {
        references_idle(out, names, prefix, s, cx, at + 1);
    }
}

/// A request is prepared for each of its databases: what one of them refuses is refused, and where
/// one alone has keys that concern it, it becomes what it is for that one.
pub proof fn each_database_is_prepared_for(
    list: Seq<CommandModel>,
    prefix: nat,
    s: StoreModel,
    cx: ContextModel,
    d: Seq<char>,
)
    requires
        prepare::touched(list).contains(d),
        forall|e: Seq<char>|
            e != d && prepare::touched(list).contains(e) ==> #[trigger] prepare::referential_in(
                list,
                e,
                prefix,
                s,
                cx,
            ) == Ok::<Seq<CommandModel>, Seq<char>>(list),
    ensures
        prepare::referential_in(list, d, prefix, s, cx) is Err ==> prepare::with_references(
            list,
            prefix,
            s,
            cx,
        ) is Err,
        prepare::referential_in(list, d, prefix, s, cx) matches Ok(out) ==> (forall|e: Seq<char>|
            e != d && prepare::touched(list).contains(e) ==> #[trigger] prepare::referential_in(
                out,
                e,
                prefix,
                s,
                cx,
            ) == Ok::<Seq<CommandModel>, Seq<char>>(out)) ==> prepare::with_references(
            list,
            prefix,
            s,
            cx,
        ) == Ok::<Seq<CommandModel>, Seq<char>>(out),
{
    let names = prepare::touched(list);
    touched_ascends(list, 0, Seq::empty());
    let n = names.index_of(d);
    assert forall|i: int| 0 <= i < names.len() && i != n implies #[trigger] names[i] != d by {
        if i < n {
            assert(assoc::text_less(names[i], names[n]));
        } else {
            assert(assoc::text_less(names[n], names[i]));
        }
        assoc::less_irreflexive(d);
    }
    assert forall|i: int| 0 <= i < names.len() implies names.contains(#[trigger] names[i]) by {}
    match prepare::referential_in(list, d, prefix, s, cx) {
        Err(_) => {
            references_first(list, names, prefix, s, cx, 0, n);
        },
        Ok(out) => {
            if forall|e: Seq<char>|
                e != d && prepare::touched(list).contains(e) ==> #[trigger] prepare::referential_in(
                    out,
                    e,
                    prefix,
                    s,
                    cx,
                ) == Ok::<Seq<CommandModel>, Seq<char>>(out) {
                references_alone(list, names, prefix, s, cx, 0, n, out);
            }
        },
    }
}

proof fn touched_ascends(list: Seq<CommandModel>, at: int, names: Seq<Seq<char>>)
    requires
        0 <= at <= list.len(),
        assoc::ascending(names),
    ensures
        assoc::ascending(prepare::touched_from(list, at, names)),
    decreases list.len() - at,
{
    if at < list.len() {
        match commands::rows_target(list[at]) {
            Some((e, _)) => {
                named(names, e, e);
                touched_ascends(list, at + 1, assoc::with_name(names, e));
            },
            None => {
                touched_ascends(list, at + 1, names);
            },
        }
    }
}

// ---------------------------------------------------------------------------------------------
// Drafts
// ---------------------------------------------------------------------------------------------
/// Whether a command is another but for the row that it brings.
pub open spec fn but_row(a: CommandModel, b: CommandModel) -> bool {
    match (a, b) {
        (
            CommandModel::Insert { database: d, table: t, .. },
            CommandModel::Insert { database: e, table: u, .. },
        ) => d == e && t == u,
        (
            CommandModel::Upsert { database: d, table: t, update_columns: c, ignore: i, .. },
            CommandModel::Upsert { database: e, table: u, update_columns: f, ignore: j, .. },
        ) => d == e && t == u && c == f && i == j,
        _ => a == b,
    }
}

pub open spec fn all_but_rows(a: Seq<CommandModel>, b: Seq<CommandModel>) -> bool {
    a.len() == b.len() && forall|i: int| 0 <= i < a.len() ==> but_row(#[trigger] a[i], b[i])
}

/// The commands of a request without the markers that switch foreign keys off.
pub open spec fn unmarked(list: Seq<CommandModel>) -> Seq<CommandModel> {
    list.filter(|c: CommandModel| !(c is ForeignKeyChecksDisabled))
}

pub open spec fn marked(list: Seq<CommandModel>, at: int) -> bool {
    exists|i: int| at <= i < list.len() && (#[trigger] list[i]) is ForeignKeyChecksDisabled
}

proof fn unmarked_one(list: Seq<CommandModel>, at: int)
    requires
        0 <= at < list.len(),
    ensures
        list[at] is ForeignKeyChecksDisabled ==> unmarked(list.skip(at)) == unmarked(
            list.skip(at + 1),
        ),
        !(list[at] is ForeignKeyChecksDisabled) ==> unmarked(list.skip(at)) == seq![list[at]]
            + unmarked(list.skip(at + 1)),
{
    let p = |c: CommandModel| !(c is ForeignKeyChecksDisabled);
    assert(list.skip(at) =~= seq![list[at]] + list.skip(at + 1));
    Seq::filter_distributes_over_add(seq![list[at]], list.skip(at + 1), p);
    crate::search::singleton_filter(list[at], p);
    assert(list[at] is ForeignKeyChecksDisabled ==> unmarked(list.skip(at)) =~= unmarked(
        list.skip(at + 1),
    ));
}

proof fn unmarked_stretch(list: Seq<CommandModel>, at: int, end: int)
    requires
        0 <= at <= end <= list.len(),
        forall|i: int| at <= i < end ==> !((#[trigger] list[i]) is ForeignKeyChecksDisabled),
    ensures
        unmarked(list.skip(at)) == list.subrange(at, end) + unmarked(list.skip(end)),
    decreases end - at,
{
    if at < end {
        unmarked_one(list, at);
        unmarked_stretch(list, at + 1, end);
        assert(seq![list[at]] + (list.subrange(at + 1, end) + unmarked(list.skip(end)))
            =~= list.subrange(at, end) + unmarked(list.skip(end)));
    } else {
        assert(list.subrange(at, end) + unmarked(list.skip(end)) =~= unmarked(list.skip(at)));
    }
}

proof fn stretch_continues(list: Seq<CommandModel>, c: CommandModel, at: int)
    requires
        0 <= at <= list.len(),
    ensures
        forall|i: int|
            at <= i < prepare::stretch_end(list, c, at) ==> prepare::continues(c, #[trigger] list[i]),
    decreases list.len() - at,
{
    if at < list.len() && prepare::continues(c, list[at]) {
        stretch_continues(list, c, at + 1);
    }
}

proof fn stretch_len(
    s: StoreModel,
    created: Seq<(Seq<char>, Seq<char>, SchemaModel)>,
    c: CommandModel,
    rows: Seq<RowModel>,
    cx: ContextModel,
)
    requires
        prepare::stretch_rows(s, created, c, rows, cx).1 is Ok,
    ensures
        (prepare::stretch_rows(s, created, c, rows, cx).1->Ok_0).0.len() == rows.len(),
{
    reveal(prepare::stretch_rows);
    let (d, t) = commands::rows_target(c)->0;
    match crate::pairs::pair_value(created, d, t) {
        Some(schema) => {
            if c is Insert {
                prepare::materialized_len(rows, schema, cx.moment, 0, Seq::empty());
            } else {
                prepare::reserved_len(store::database_of(s, d)->0, t, rows, cx.moment);
            }
        },
        None => {
            prepare::reserved_len(store::database_of(s, d)->0, t, rows, cx.moment);
        },
    }
}

proof fn drafts_keep(
    s: StoreModel,
    draft: prepare::DraftModel,
    list: Seq<CommandModel>,
    cx: ContextModel,
    at: int,
    front: Seq<CommandModel>,
)
    requires
        0 <= at <= list.len(),
        all_but_rows(draft.prepared, front),
    ensures
        prepare::drafted_from(s, draft, list, cx, at).1 matches Ok(end) ==> {
            &&& all_but_rows(end.prepared, front + unmarked(list.skip(at)))
            &&& end.foreign_keys == (draft.foreign_keys && !marked(list, at))
            &&& draft.last_id != 0 ==> end.last_id == draft.last_id
        },
    decreases list.len() - at,
{
    if at < list.len() {
        let c = list[at];
        unmarked_one(list, at);
        let one = draft.prepared.push(c);
        assert(all_but_rows(one, front.push(c)));
        assert(!(c is ForeignKeyChecksDisabled) ==> front.push(c) + unmarked(list.skip(at + 1))
            =~= front + unmarked(list.skip(at)));
        match c {
            CommandModel::CreateTable { database, schema } => {
                let next = prepare::DraftModel {
                    prepared: one,
                    created: crate::pairs::with_pair(
                        draft.created,
                        database,
                        schema.name,
                        schema,
                    ),
                    ..draft
                };
                drafts_keep(s, next, list, cx, at + 1, front.push(c));
            },
            CommandModel::ExpressionUpdate { .. } => {},
            CommandModel::ForeignKeyChecksDisabled => {
                let next = prepare::DraftModel { foreign_keys: false, ..draft };
                drafts_keep(s, next, list, cx, at + 1, front);
            },
            _ => {
                if c is Insert || c is Upsert {
                    let end = prepare::stretch_end(list, c, at + 1);
                    prepare::stretch_bounds(list, c, at + 1);
                    stretch_continues(list, c, at + 1);
                    let given = crate::apply::rows_of(list, at, end);
                    let (after, r) = prepare::stretch_rows(s, draft.created, c, given, cx);
                    match r {
                        Ok((rows, id)) => {
                            stretch_len(s, draft.created, c, given, cx);
                            let more = prepare::with_rows(list, at, rows);
                            let next = prepare::DraftModel {
                                prepared: draft.prepared + more,
                                last_id: if draft.last_id == 0 && prepare::counts_number(
                                    list,
                                    at,
                                    end,
                                ) {
                                    id
                                } else {
                                    draft.last_id
                                },
                                ..draft
                            };
                            let taken = list.subrange(at, end);
                            assert(all_but_rows(next.prepared, front + taken)) by {
                                assert forall|i: int| 0 <= i < next.prepared.len() implies but_row(
                                    #[trigger] next.prepared[i],
                                    (front + taken)[i],
                                ) by {
                                    if i < draft.prepared.len() {
                                        assert(next.prepared[i] == draft.prepared[i]);
                                    } else {
                                        let k = i - draft.prepared.len();
                                        assert(next.prepared[i] == prepare::with_row(
                                            list[at + k],
                                            rows[k],
                                        ));
                                    }
                                }
                            }
                            drafts_keep(after, next, list, cx, end, front + taken);
                            unmarked_stretch(list, at, end);
                            assert((front + taken) + unmarked(list.skip(end)) =~= front + unmarked(
                                list.skip(at),
                            ));
                            assert(marked(list, at) ==> marked(list, end)) by {
                                if marked(list, at) {
                                    let i = choose|i: int|
                                        at <= i < list.len()
                                            && (#[trigger] list[i]) is ForeignKeyChecksDisabled;
                                    assert(i >= end);
                                }
                            }
                        },
                        Err(_) => {},
                    }
                } else {
                    let next = prepare::DraftModel { prepared: one, ..draft };
                    drafts_keep(s, next, list, cx, at + 1, front.push(c));
                }
            },
        }
    } else {
        reveal(Seq::filter);
        assert(list.skip(at) =~= Seq::empty());
        assert(front + unmarked(list.skip(at)) =~= front);
    }
}

/// Drafting a request keeps its commands in their order; only the rows that they bring are
/// completed. Where foreign keys are switched off, that is the request as it is logged.
pub proof fn drafts_keep_the_commands(
    s: StoreModel,
    list: Seq<CommandModel>,
    prefix: nat,
    cx: ContextModel,
)
    ensures
        prepare::drafted_from(s, prepare::empty_draft(), list, cx, 0).1 matches Ok(end)
            ==> all_but_rows(end.prepared, unmarked(list)),
        marked(list, 0) ==> (prepare::prepared(s, list, prefix, cx).1 matches Ok(out)
            ==> all_but_rows(out.0, unmarked(list))),
        !marked(list, 0) ==> (prepare::prepared(s, list, prefix, cx).1 matches Ok(out) ==> (
        prepare::drafted_from(s, prepare::empty_draft(), list, cx, 0).1 matches Ok(end)
            && prepare::with_references(
            end.prepared,
            prefix,
            prepare::prepared(s, list, prefix, cx).0,
            cx,
        ) == Ok::<Seq<CommandModel>, Seq<char>>(out.0))),
{
    drafts_keep(s, prepare::empty_draft(), list, cx, 0, Seq::empty());
    assert(list.skip(0) =~= list);
    assert(Seq::<CommandModel>::empty() + unmarked(list) =~= unmarked(list));
}

/// The number that a request reports is the first that it generated.
pub proof fn the_first_number_is_reported(
    s: StoreModel,
    draft: prepare::DraftModel,
    list: Seq<CommandModel>,
    cx: ContextModel,
    at: int,
)
    requires
        0 <= at <= list.len(),
        draft.last_id != 0,
    ensures
        prepare::drafted_from(s, draft, list, cx, at).1 matches Ok(end) ==> end.last_id
            == draft.last_id,
{
    drafts_keep(s, draft, list, cx, at, draft.prepared);
}

// ---------------------------------------------------------------------------------------------
// A cascade
// ---------------------------------------------------------------------------------------------
proof fn children_pend(
    rows: Seq<RowModel>,
    at: int,
    k: ForeignKeyModel,
    e: referential::EffectModel,
    s: SchemaModel,
    pending: Seq<ChangeModel>,
    cx: ContextModel,
)
    requires
        forall|i: int| 0 <= i < pending.len() ==> (#[trigger] pending[i]).table == k.child_table,
    ensures
        referential::children_down(rows, at, k, e, s, pending, cx) matches Ok(out) ==> forall|i: int|
            0 <= i < out.1.len() ==> (#[trigger] out.1[i]).table == k.child_table,
    decreases at + 1,
{
    if 0 <= at < rows.len() {
        if fkeys::row_key(rows[at], k.child_columns) != Some(e.old_key) {
            children_pend(rows, at - 1, k, e, s, pending, cx);
        } else if e.action == ReferentialAction::Cascade && !e.kept {
            let more = pending.push(
                ChangeModel { table: k.child_table, before: rows[at], after: None },
            );
            children_pend(rows.remove(at), at - 1, k, e, s, more, cx);
        } else {
            match referential::child_after(rows[at], k, e, s, cx) {
                Err(_) => {},
                Ok(after) => {
                    let more = pending.push(
                        ChangeModel { table: k.child_table, before: rows[at], after: Some(after) },
                    );
                    children_pend(rows.update(at, after), at - 1, k, e, s, more, cx);
                },
            }
        }
    }
}

proof fn idle_cascade(
    state: CascadeModel,
    k: ForeignKeyModel,
    schemas: TablesModel,
    cx: ContextModel,
    processed: int,
)
    requires
        forall|i: int|
            0 <= i < state.pending.len() ==> (#[trigger] state.pending[i]).table != k.parent_table,
    ensures
        referential::cascaded(state, seq![k], schemas, cx, processed) matches Ok(end) ==> end.related
            == state.related,
    decreases referential::CASCADE_LIMIT - processed,
{
    if state.pending.len() > 0 && processed < referential::CASCADE_LIMIT {
        reveal(referential::key_step);
        reveal_with_fuel(referential::keys_from, 2);
        let rest = CascadeModel { pending: state.pending.drop_first(), ..state };
        assert(referential::key_step(rest, state.pending[0], k, schemas, cx) == Ok::<
            CascadeModel,
            Seq<char>,
        >(rest));
        assert(referential::keys_from(rest, state.pending[0], seq![k], schemas, cx, 0) == Ok::<
            CascadeModel,
            Seq<char>,
        >(rest));
        assert forall|i: int| 0 <= i < rest.pending.len() implies (
        #[trigger] rest.pending[i]).table != k.parent_table by {
            assert(rest.pending[i] == state.pending[i + 1]);
        }
        idle_cascade(rest, k, schemas, cx, processed + 1);
    }
}

/// The deletion of a parent is carried through: under CASCADE the children with its key are gone at
/// the end, and the others are as they were, in their order.
pub proof fn a_cascade_is_carried_through(
    state: CascadeModel,
    c: ChangeModel,
    k: ForeignKeyModel,
    key: Seq<Seq<u8>>,
    schemas: TablesModel,
    cx: ContextModel,
)
    requires
        state.pending == seq![c],
        k.child_table != k.parent_table,
        c.after is None,
        loses(c, k, key),
        k.on_delete == ReferentialAction::Cascade,
        referential::cascaded(state, seq![k], schemas, cx, 0) is Ok,
    ensures
        children(referential::cascaded(state, seq![k], schemas, cx, 0)->Ok_0.related, k)
            == without_key(children(state.related, k), k.child_columns, key),
{
    reveal(referential::key_step);
    reveal_with_fuel(referential::keys_from, 2);
    let rest = CascadeModel { pending: state.pending.drop_first(), ..state };
    assert(rest.pending =~= Seq::empty());
    let next = referential::key_step(rest, c, k, schemas, cx)->Ok_0;
    assert(referential::keys_from(rest, c, seq![k], schemas, cx, 0) == referential::key_step(
        rest,
        c,
        k,
        schemas,
        cx,
    ));
    keylaws::delete_cascade_takes_the_children(rest, c, k, key, schemas, cx);
    match referential::effect_of(c, k) {
        Some(e) => {
            let rows = assoc::lookup(rest.related, k.child_table)->0;
            let s = assoc::lookup(schemas, k.child_table)->0;
            children_pend(rows, rows.len() - 1, k, e, s, rest.pending, cx);
        },
        None => {},
    }
    idle_cascade(next, k, schemas, cx, 1);
}

} // verus!
