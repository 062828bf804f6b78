//! What gathering and applying groups of requests comes to.
use crate::actor;
use crate::actor::{GroupModel, ReplyModel, RequestModel};
use crate::apply;
use crate::batch;
use crate::batchlaws;
use crate::batchlaws::told_apart;
use crate::commands;
use crate::commands::{CommandModel, WriteResult};
use crate::database;
use crate::pairs;
use crate::predicate::ContextModel;
use crate::prepare;
use crate::replay;
use crate::row::RowModel;
use crate::schema;
use crate::schema::KeyModel;
use crate::store;
use crate::store::StoreModel;
use crate::validate;
use crate::validate::KeysModel;
use crate::values;
use vstd::prelude::*;

verus! {

// ---------------------------------------------------------------------------------------------
// Inserts
// ---------------------------------------------------------------------------------------------
/// Whether no table of a store has two keys of one name.
pub open spec fn all_told_apart(s: StoreModel) -> bool {
    forall|d: Seq<char>, t: Seq<char>|
        (#[trigger] store::table_in(s, d, t)) matches Some(found) ==> told_apart(
            schema::keys(found.schema),
        )
}

/// The keys of the table that an INSERT brings a row to.
pub open spec fn insert_keys(c: CommandModel, s: StoreModel) -> Seq<KeyModel> {
    match store::table_in(s, c->Insert_database, c->Insert_table) {
        Some(found) => schema::keys(found.schema),
        None => Seq::empty(),
    }
}

/// What an INSERT brings for the `n`-th key of its table.
pub open spec fn insert_key(c: CommandModel, s: StoreModel, n: int) -> Option<Seq<u8>> {
    if c is Insert && 0 <= n < insert_keys(c, s).len() {
        values::key(c->Insert_row, insert_keys(c, s)[n].columns)
    } else {
        None
    }
}

/// Whether an INSERT brings a key that a group has brought before.
pub open spec fn brought_before(keys: KeysModel, c: CommandModel, s: StoreModel, n: int) -> bool {
    insert_key(c, s, n) is Some && validate::brought(
        keys,
        c->Insert_database,
        c->Insert_table,
        insert_keys(c, s)[n].name,
    ).contains(insert_key(c, s, n)->0)
}

/// Whether an INSERT brings a key that a stored row has.
pub open spec fn stored_before(c: CommandModel, s: StoreModel, n: int) -> bool {
    insert_key(c, s, n) is Some && (store::table_in(
        s,
        c->Insert_database,
        c->Insert_table,
    ) matches Some(found) && exists|j: int|
        0 <= j < found.rows().len() && values::key(
            #[trigger] found.rows()[j],
            insert_keys(c, s)[n].columns,
        ) == insert_key(c, s, n))
}

/// Whether an INSERT brings a key that is taken.
pub open spec fn taken_before(keys: KeysModel, c: CommandModel, s: StoreModel, n: int) -> bool {
    brought_before(keys, c, s, n) || stored_before(c, s, n)
}

proof fn one_insert(keys: KeysModel, c: CommandModel, s: StoreModel)
    requires
        c is Insert,
        all_told_apart(s),
    ensures
        ({
            let d = c->Insert_database;
            let t = c->Insert_table;
            match store::table_in(s, d, t) {
                Some(found) => {
                    let list = schema::keys(found.schema);
                    let r = validate::keys_added(keys, c->Insert_row, list, d, t, true, s, 0);
                    &&& r is Err <==> exists|n: int|
                        #[trigger] taken_before(keys, c, s, n)
                    &&& r matches Ok(next) ==> {
                        &&& forall|n: int| #[trigger]
                            insert_key(c, s, n) is Some ==> brought_before(next, c, s, n)
                        &&& forall|e: Seq<char>, u: Seq<char>, name: Seq<char>, k: Seq<u8>|
                            validate::brought(keys, e, u, name).contains(k)
                                ==> #[trigger] validate::brought(next, e, u, name).contains(k)
                    }
                },
                None => true,
            }
        }),
{
    let d = c->Insert_database;
    let t = c->Insert_table;
    let row = c->Insert_row;
    match store::table_in(s, d, t) {
        Some(found) => {
            let list = schema::keys(found.schema);
            let r = validate::keys_added(keys, row, list, d, t, true, s, 0);
            batchlaws::keys_added_means(keys, row, list, d, t, true, s, 0);
            assert forall|n: int, k: Seq<u8>| 0 <= n < list.len() implies (
            #[trigger] validate::key_exists(s, d, t, list[n].name, k)) == (exists|j: int|
                0 <= j < found.rows().len() && values::key(
                    #[trigger] found.rows()[j],
                    list[n].columns,
                ) == Some(k)) by {
                batchlaws::a_stored_key_is_that_of_a_row(s, d, t, n, k);
            }
            if r is Err {
                let n = choose|n: int|
                    0 <= n < list.len() && (values::key(row, (
                    #[trigger] list[n]).columns) matches Some(k) && (validate::brought(
                        keys,
                        d,
                        t,
                        list[n].name,
                    ).contains(k) || validate::key_exists(s, d, t, list[n].name, k)));
                assert(insert_key(c, s, n) is Some);
                assert(taken_before(keys, c, s, n));
            }
            if exists|n: int| #[trigger] taken_before(keys, c, s, n) {
                let n = choose|n: int|
                    #[trigger] taken_before(keys, c, s, n);
                let k = insert_key(c, s, n)->0;
                assert(values::key(row, list[n].columns) == Some(k));
                assert(validate::brought(keys, d, t, list[n].name).contains(k)
                    || validate::key_exists(s, d, t, list[n].name, k));
            }
            match r {
                Ok(next) => {
                    assert forall|n: int| #[trigger] insert_key(c, s, n) is Some implies
                        brought_before(next, c, s, n) by {
                        let k = insert_key(c, s, n)->0;
                        let known = validate::brought(keys, d, t, list[n].name);
                        assert(validate::brought(next, d, t, list[n].name) == known.push(k));
                        assert(known.push(k)[known.len() as int] == k);
                    }
                    assert forall|e: Seq<char>, u: Seq<char>, name: Seq<char>, k: Seq<u8>|
                        validate::brought(keys, e, u, name).contains(
                            k,
                        ) implies #[trigger] validate::brought(next, e, u, name).contains(k) by {
                        let known = validate::brought(keys, e, u, name);
                        if e == d && u == t && exists|n: int|
                            0 <= n < list.len() && (#[trigger] list[n]).name == name {
                            let n = choose|n: int|
                                0 <= n < list.len() && (#[trigger] list[n]).name == name;
                            assert(validate::brought(next, d, t, list[n].name) == match values::key(
                                row,
                                list[n].columns,
                            ) {
                                Some(x) => known.push(x),
                                None => known,
                            });
                            let i = known.index_of(k);
                            match values::key(row, list[n].columns) {
                                Some(x) => {
                                    assert(known.push(x)[i] == k);
                                },
                                None => {},
                            }
                        }
                    }
                },
                Err(_) => {},
            }
        },
        None => {},
    }
}

proof fn inserts_bring(keys: KeysModel, list: Seq<CommandModel>, s: StoreModel, at: int)
    requires
        0 <= at <= list.len(),
        all_told_apart(s),
    ensures
        actor::inserts_added(keys, list, s, at) matches Ok(next) ==> {
            &&& forall|i: int, n: int|
                at <= i < list.len() ==> !#[trigger] taken_before(keys, list[i], s, n)
            &&& forall|i: int, n: int|
                at <= i < list.len() && #[trigger] insert_key(list[i], s, n) is Some
                    ==> brought_before(next, list[i], s, n)
            &&& forall|e: Seq<char>, u: Seq<char>, name: Seq<char>, k: Seq<u8>|
                validate::brought(keys, e, u, name).contains(k) ==> #[trigger] validate::brought(
                    next,
                    e,
                    u,
                    name,
                ).contains(k)
            &&& forall|i: int, j: int, n: int|
                at <= i < j < list.len() && insert_key(list[i], s, n) is Some ==> !#[trigger] same_insert_key(
                    list[i],
                    list[j],
                    s,
                    n,
                )
        },
    decreases list.len() - at,
{
    if at < list.len() {
        let c = list[at];
        if c is Insert && store::table_in(s, c->Insert_database, c->Insert_table) is Some {
            one_insert(keys, c, s);
            let found = store::table_in(s, c->Insert_database, c->Insert_table)->0;
            let r = validate::keys_added(
                keys,
                c->Insert_row,
                schema::keys(found.schema),
                c->Insert_database,
                c->Insert_table,
                true,
                s,
                0,
            );
            match r {
                Ok(more) => {
                    inserts_bring(more, list, s, at + 1);
                    match actor::inserts_added(more, list, s, at + 1) {
                        Ok(next) => {
                            assert forall|i: int, n: int| at <= i < list.len() implies
                                !#[trigger] taken_before(keys, list[i], s, n) by {
                                if i == at {
                                    assert(!taken_before(keys, c, s, n));
                                } else {
                                    assert(!taken_before(more, list[i], s, n));
                                    assert(brought_before(keys, list[i], s, n) ==> brought_before(
                                        more,
                                        list[i],
                                        s,
                                        n,
                                    ));
                                }
                            }
                            assert forall|i: int, n: int|
                                at <= i < list.len() && #[trigger] insert_key(
                                    list[i],
                                    s,
                                    n,
                                ) is Some implies brought_before(next, list[i], s, n) by {
                                if i == at {
                                    assert(insert_key(c, s, n) is Some);
                                    assert(brought_before(more, c, s, n));
                                }
                            }
                            assert forall|i: int, j: int, n: int|
                                at <= i < j < list.len() && insert_key(
                                    list[i],
                                    s,
                                    n,
                                ) is Some implies !#[trigger] same_insert_key(
                                list[i],
                                list[j],
                                s,
                                n,
                            ) by {
                                if i == at {
                                    assert(insert_key(c, s, n) is Some);
                                    assert(brought_before(more, c, s, n));
                                    assert(!taken_before(more, list[j], s, n));
                                }
                            }
                        },
                        Err(_) => {},
                    }
                },
                Err(_) => {},
            }
        }
    }
}

/// Whether two INSERTs bring the same key to one table.
pub open spec fn same_insert_key(a: CommandModel, b: CommandModel, s: StoreModel, n: int) -> bool {
    a matches CommandModel::Insert { database: d, table: t, .. } && (
    b matches CommandModel::Insert { database: e, table: u, .. } && d == e && t == u && insert_key(
        a,
        s,
        n,
    ) is Some && insert_key(a, s, n) == insert_key(b, s, n))
}

/// INSERTs join a group where none of them brings a key that is stored, that the group has brought,
/// or that one before it brings. From then on their keys are the group's.
pub proof fn inserts_bring_their_keys_once(keys: KeysModel, list: Seq<CommandModel>, s: StoreModel)
    requires
        all_told_apart(s),
        actor::inserts_added(keys, list, s, 0) is Ok,
    ensures
        ({
            let next = actor::inserts_added(keys, list, s, 0)->Ok_0;
            &&& forall|i: int, n: int|
                0 <= i < list.len() ==> !#[trigger] taken_before(keys, list[i], s, n)
            &&& forall|i: int, j: int, n: int|
                0 <= i < j < list.len() ==> !#[trigger] same_insert_key(list[i], list[j], s, n)
            &&& forall|i: int, n: int|
                0 <= i < list.len() && #[trigger] insert_key(list[i], s, n) is Some
                    ==> brought_before(next, list[i], s, n)
        }),
{
    inserts_bring(keys, list, s, 0);
}

/// An INSERT none of whose keys is taken joins.
pub proof fn fresh_inserts_join(keys: KeysModel, c: CommandModel, s: StoreModel)
    requires
        all_told_apart(s),
        c is Insert,
        store::table_in(s, c->Insert_database, c->Insert_table) is Some,
        forall|n: int| !#[trigger] taken_before(keys, c, s, n),
    ensures
        actor::inserts_added(keys, seq![c], s, 0) is Ok,
{
    one_insert(keys, c, s);
    let one = seq![c];
    let found = store::table_in(s, c->Insert_database, c->Insert_table)->0;
    let r = validate::keys_added(
        keys,
        c->Insert_row,
        schema::keys(found.schema),
        c->Insert_database,
        c->Insert_table,
        true,
        s,
        0,
    );
    assert(one[0] == c);
    assert(actor::inserts_added(r->Ok_0, one, s, 1) is Ok);
}

// ---------------------------------------------------------------------------------------------
// Joining a group
// ---------------------------------------------------------------------------------------------
/// Whether a request joins a group.
pub open spec fn joins(g: GroupModel, r: RequestModel, cx: ContextModel) -> bool {
    actor::group_step(g, r, cx).1 is None && actor::group_step(g, r, cx).0.staged.len()
        == g.staged.len() + 1
}

/// A request of INSERTs joins only with keys that neither the store nor the group holds, and brings
/// them to the group. Any other request joins only where its commands are not refused: on their own
/// where the statements of the group do not depend on each other, and otherwise behind the commands
/// of the group, to which they are added.
pub proof fn requests_join_where_they_fit(g: GroupModel, r: RequestModel, cx: ContextModel)
    requires
        r.prepared,
        all_told_apart(g.store),
        joins(g, r, cx),
    ensures
        ({
            let next = actor::group_step(g, r, cx).0;
            &&& next.store == g.store
            &&& next.staged == g.staged.push(r)
            &&& next.failed == g.failed
            &&& commands::all_inserts(r.commands) ==> {
                &&& forall|i: int, n: int|
                    0 <= i < r.commands.len() ==> !#[trigger] taken_before(g.keys, r.commands[i], g.store, n)
                &&& forall|i: int, n: int|
                    0 <= i < r.commands.len() && #[trigger] insert_key(
                        r.commands[i],
                        g.store,
                        n,
                    ) is Some ==> brought_before(next.keys, r.commands[i], g.store, n)
                &&& next.cumulative == g.cumulative
            }
            &&& !commands::all_inserts(r.commands) && g.cumulative.len() == 0
                && commands::all_independent(r.commands) && (forall|i: int|
                0 <= i < g.staged.len() ==> commands::all_independent(
                    (#[trigger] g.staged[i]).commands,
                )) ==> batch::refused(r.commands, g.store, cx) is None && next.cumulative
                == g.cumulative
            &&& !commands::all_inserts(r.commands) && !commands::all_independent(r.commands)
                ==> batch::refused(g.cumulative + r.commands, g.store, cx) is None
                && next.cumulative == g.cumulative + r.commands
        }),
{
    reveal(actor::offered);
    if commands::all_inserts(r.commands) {
        inserts_bring_their_keys_once(g.keys, r.commands, g.store);
    }
}

/// The first request of a group joins where it is not refused, and is refused otherwise.
pub proof fn the_first_request_joins_or_is_refused(s: StoreModel, r: RequestModel, cx: ContextModel)
    requires
        r.prepared,
        !commands::all_inserts(r.commands),
    ensures
        ({
            let g = actor::empty_group(s);
            let (next, back) = actor::group_step(g, r, cx);
            &&& back is None
            &&& batch::refused(r.commands, s, cx) is None ==> next.staged == seq![r]
                && next.failed.len() == 0
            &&& batch::refused(r.commands, s, cx) matches Some(e) ==> next.staged.len() == 0
                && next.failed == seq![(r.id, e)]
        }),
{
    reveal(actor::offered);
    let g = actor::empty_group(s);
    assert(g.cumulative + r.commands =~= r.commands);
    assert(g.staged.push(r) =~= seq![r]);
    match batch::refused(r.commands, s, cx) {
        Some(e) => {
            assert(g.failed.push((r.id, e)) =~= seq![(r.id, e)]);
        },
        None => {},
    }
}

/// A request that joins others is of their kind: in memory or logged, of INSERTs or not; and one
/// whose statements depend on those before them does not join statements that are checked apart.
pub proof fn groups_are_of_one_kind(g: GroupModel, r: RequestModel, cx: ContextModel)
    requires
        g.staged.len() > 0,
        joins(g, r, cx),
    ensures
        ({
            let next = actor::group_step(g, r, cx).0;
            let last = next.staged.last();
            &&& store::memory_only(last.commands, next.store) == store::memory_only(
                g.staged[0].commands,
                next.store,
            )
            &&& commands::all_inserts(last.commands) == forall|i: int|
                0 <= i < g.staged.len() ==> commands::all_inserts((#[trigger] g.staged[i]).commands)
            &&& g.cumulative.len() == 0 && (forall|i: int|
                0 <= i < g.staged.len() ==> commands::all_independent(
                    (#[trigger] g.staged[i]).commands,
                )) ==> commands::all_independent(last.commands)
        }),
{
    reveal(actor::offered);
}

/// A request that is not prepared joins as it was prepared: with the commands that preparing made,
/// and the number that it had, or else the one that preparing gave it.
pub proof fn requests_join_prepared(g: GroupModel, r: RequestModel, cx: ContextModel)
    requires
        !r.prepared,
        joins(g, r, cx),
    ensures
        ({
            let next = actor::group_step(g, r, cx).0;
            let last = next.staged.last();
            prepare::prepared(g.store, r.commands, 0, cx).1 matches Ok(made) && last.commands == made.0
                && last.id == r.id && last.last_insert_id == if r.last_insert_id != 0 {
                r.last_insert_id
            } else {
                made.1
            }
        }),
{
    reveal(actor::offered);
}

/// A request that cannot be prepared joins no group, and one that fails alone is told why.
pub proof fn unprepared_requests_do_not_join(g: GroupModel, r: RequestModel, cx: ContextModel, e: Seq<char>)
    requires
        !r.prepared,
        prepare::prepared(g.store, r.commands, 0, cx).1 == Err::<(Seq<CommandModel>, u64), Seq<char>>(
            e,
        ),
    ensures
        actor::group_step(g, r, cx).0.staged == g.staged,
        g.staged.len() == 0 ==> actor::group_step(g, r, cx).1 is None && actor::group_step(
            g,
            r,
            cx,
        ).0.failed == g.failed.push((r.id, e)),
        g.staged.len() > 0 ==> (actor::group_step(g, r, cx).1 matches Some(back) && back.id == r.id
            && actor::group_step(g, r, cx).0.failed == g.failed),
{
}

// ---------------------------------------------------------------------------------------------
// Applying a group
// ---------------------------------------------------------------------------------------------
/// The commands of a group are those of its requests, one after the other.
pub proof fn a_group_is_its_requests(staged: Seq<RequestModel>, r: RequestModel)
    ensures
        actor::commands_from(Seq::empty(), 0, Seq::empty()) == Seq::<CommandModel>::empty(),
        actor::commands_from(staged.push(r), 0, Seq::empty()) == actor::commands_from(
            staged,
            0,
            Seq::empty(),
        ) + r.commands,
{
    commands_of_more(staged, r, 0, Seq::empty());
}

proof fn commands_of_more(
    staged: Seq<RequestModel>,
    r: RequestModel,
    at: int,
    done: Seq<CommandModel>,
)
    requires
        0 <= at <= staged.len(),
    ensures
        actor::commands_from(staged.push(r), at, done) == actor::commands_from(staged, at, done)
            + r.commands,
    decreases staged.len() - at,
{
    let more = staged.push(r);
    if at < staged.len() {
        assert(more[at] == staged[at]);
        commands_of_more(staged, r, at + 1, done + staged[at].commands);
    } else {
        assert(more[at] == r);
        reveal_with_fuel(actor::commands_from, 2);
    }
}

/// A group of INSERTs on tables that are kept is applied as one batch; each of its requests is
/// answered with its own rows and its own number, or with the failure of the batch.
pub proof fn inserts_are_applied_as_one(
    s: StoreModel,
    staged: Seq<RequestModel>,
    orphans: u64,
    cx: ContextModel,
    i: int,
)
    requires
        !(staged.len() > 0 && store::memory_only(staged[0].commands, s)),
        forall|k: int| 0 <= k < staged.len() ==> commands::all_inserts((#[trigger] staged[k]).commands),
        0 <= i < staged.len(),
        staged[i].commands.len() <= u64::MAX,
    ensures
        ({
            let (after, replies) = actor::group_applied(s, staged, orphans, cx);
            let (one, outcome) = apply::applied_batch(
                s,
                actor::commands_from(staged, 0, Seq::empty()),
                true,
                orphans,
                cx,
            );
            &&& after == one
            &&& replies[i].id == staged[i].id
            &&& outcome matches Err(e) ==> replies[i].outcome == Err::<WriteResult, Seq<char>>(e)
            &&& outcome is Ok ==> (replies[i].outcome matches Ok(w) && w.affected_rows
                == staged[i].commands.len() && w.last_insert_id == staged[i].last_insert_id)
        }),
{
}

proof fn each_from(
    staged: Seq<RequestModel>,
    memory: bool,
    cx: ContextModel,
    at: int,
    states: Seq<StoreModel>,
    counts: Seq<u64>,
    results: Seq<WriteResult>,
    n: int,
    done: Seq<ReplyModel>,
)
    requires
        0 <= at <= n <= staged.len(),
        states.len() > n,
        counts.len() > n,
        results.len() >= n,
        done.len() == at,
        forall|i: int|
            0 <= i < n ==> apply::applied_batch(
                #[trigger] states[i],
                staged[i].commands,
                !memory && commands::all_rows_only(staged[i].commands),
                counts[i],
                cx,
            ) == (states[i + 1], Ok::<WriteResult, Seq<char>>(results[i])),
        forall|i: int|
            0 <= i < n ==> (#[trigger] counts[i + 1]) == if staged[i].commands.contains(
                CommandModel::CleanupOrphanStorage,
            ) {
                0
            } else {
                counts[i]
            },
    ensures
        ({
            let (after, replies) = actor::each_applied(
                states[at],
                staged,
                memory,
                counts[at],
                cx,
                at,
                false,
                done,
            );
            let more = Seq::new(
                n as nat,
                |i: int|
                    if i < at {
                        done[i]
                    } else {
                        ReplyModel {
                            id: staged[i].id,
                            outcome: actor::with_number(
                                Ok::<WriteResult, Seq<char>>(results[i]),
                                staged[i].last_insert_id,
                            ),
                        }
                    },
            );
            (after, replies) == actor::each_applied(
                states[n],
                staged,
                memory,
                counts[n],
                cx,
                n,
                false,
                more,
            )
        }),
    decreases n - at,
{
    if at < n {
        let reply = ReplyModel {
            id: staged[at].id,
            outcome: actor::with_number(
                Ok::<WriteResult, Seq<char>>(results[at]),
                staged[at].last_insert_id,
            ),
        };
        assert(states[at] == states[at]);
        assert(counts[at + 1] == actor::orphans_behind(staged[at].commands, counts[at]));
        each_from(staged, memory, cx, at + 1, states, counts, results, n, done.push(reply));
        let a = Seq::new(
            n as nat,
            |i: int|
                if i < at {
                    done[i]
                } else {
                    ReplyModel {
                        id: staged[i].id,
                        outcome: actor::with_number(
                            Ok::<WriteResult, Seq<char>>(results[i]),
                            staged[i].last_insert_id,
                        ),
                    }
                },
        );
        let b = Seq::new(
            n as nat,
            |i: int|
                if i < at + 1 {
                    done.push(reply)[i]
                } else {
                    ReplyModel {
                        id: staged[i].id,
                        outcome: actor::with_number(
                            Ok::<WriteResult, Seq<char>>(results[i]),
                            staged[i].last_insert_id,
                        ),
                    }
                },
        );
        assert(a =~= b);
    } else {
        let a = Seq::new(
            n as nat,
            |i: int|
                if i < at {
                    done[i]
                } else {
                    ReplyModel {
                        id: staged[i].id,
                        outcome: actor::with_number(
                            Ok::<WriteResult, Seq<char>>(results[i]),
                            staged[i].last_insert_id,
                        ),
                    }
                },
        );
        assert(a =~= done);
    }
}

proof fn each_failed(
    s: StoreModel,
    staged: Seq<RequestModel>,
    memory: bool,
    orphans: u64,
    cx: ContextModel,
    at: int,
    done: Seq<ReplyModel>,
)
    requires
        0 <= at <= staged.len(),
        done.len() == at,
    ensures
        ({
            let (after, replies) = actor::each_applied(
                s,
                staged,
                memory,
                orphans,
                cx,
                at,
                true,
                done,
            );
            &&& after == s
            &&& replies.len() == staged.len()
            &&& forall|i: int| 0 <= i < at ==> (#[trigger] replies[i]) == done[i]
            &&& forall|i: int| at <= i < staged.len() ==> (#[trigger] replies[i]).outcome is Err
        }),
    decreases staged.len() - at,
{
    if at < staged.len() {
        let reply = ReplyModel {
            id: staged[at].id,
            outcome: actor::with_number(
                Err::<WriteResult, Seq<char>>(actor::earlier_failure(memory)),
                staged[at].last_insert_id,
            ),
        };
        let left = actor::orphans_behind(staged[at].commands, orphans);
        each_failed(s, staged, memory, left, cx, at + 1, done.push(reply));
        let replies = actor::each_applied(s, staged, memory, orphans, cx, at, true, done).1;
        assert forall|i: int| 0 <= i < at implies (#[trigger] replies[i]) == done[i] by {
            assert(replies[i] == done.push(reply)[i]);
        }
        assert(replies[at] == done.push(reply)[at]);
    }
}

/// Any other group is applied request by request. Each that succeeds is answered with what applying
/// it gave, and with its number where that gave none. Behind the first that fails nothing is
/// applied, and every request is told of a failure.
pub proof fn requests_are_applied_in_order(
    s: StoreModel,
    staged: Seq<RequestModel>,
    cx: ContextModel,
    states: Seq<StoreModel>,
    counts: Seq<u64>,
    results: Seq<WriteResult>,
    n: int,
)
    requires
        staged.len() > 0,
        store::memory_only(staged[0].commands, s) || exists|k: int|
            0 <= k < staged.len() && !commands::all_inserts((#[trigger] staged[k]).commands),
        0 <= n <= staged.len(),
        states.len() > n,
        counts.len() > n,
        results.len() >= n,
        states[0] == s,
        forall|i: int|
            0 <= i < n ==> apply::applied_batch(
                #[trigger] states[i],
                staged[i].commands,
                !store::memory_only(staged[0].commands, s) && commands::all_rows_only(
                    staged[i].commands,
                ),
                counts[i],
                cx,
            ) == (states[i + 1], Ok::<WriteResult, Seq<char>>(results[i])),
        forall|i: int|
            0 <= i < n ==> (#[trigger] counts[i + 1]) == if staged[i].commands.contains(
                CommandModel::CleanupOrphanStorage,
            ) {
                0
            } else {
                counts[i]
            },
    ensures
        ({
            let (after, replies) = actor::group_applied(s, staged, counts[0], cx);
            let next = apply::applied_batch(
                states[n],
                staged[n].commands,
                !store::memory_only(staged[0].commands, s) && commands::all_rows_only(
                    staged[n].commands,
                ),
                counts[n],
                cx,
            );
            &&& n == staged.len() ==> after == states[n]
            &&& n == staged.len() || next.1 is Err ==> forall|i: int|
                0 <= i < n ==> ((#[trigger] replies[i]).outcome matches Ok(w) && w.affected_rows
                    == results[i].affected_rows && w.last_insert_id == if results[i].last_insert_id
                    != 0 {
                    results[i].last_insert_id
                } else {
                    staged[i].last_insert_id
                })
            &&& n < staged.len() && next.1 is Err ==> {
                &&& after == next.0
                &&& replies[n].outcome == Err::<WriteResult, Seq<char>>(next.1->Err_0)
                &&& forall|i: int| n <= i < staged.len() ==> (#[trigger] replies[i]).outcome is Err
            }
        }),
{
    let memory = store::memory_only(staged[0].commands, s);
    each_from(staged, memory, cx, 0, states, counts, results, n, Seq::empty());
    let done = Seq::new(
        n as nat,
        |i: int|
            if i < 0 {
                Seq::<ReplyModel>::empty()[i]
            } else {
                ReplyModel {
                    id: staged[i].id,
                    outcome: actor::with_number(
                        Ok::<WriteResult, Seq<char>>(results[i]),
                        staged[i].last_insert_id,
                    ),
                }
            },
    );
    if n < staged.len() {
        let next = apply::applied_batch(
            states[n],
            staged[n].commands,
            !memory && commands::all_rows_only(staged[n].commands),
            counts[n],
            cx,
        );
        if next.1 is Err {
            let reply = ReplyModel {
                id: staged[n].id,
                outcome: actor::with_number(next.1, staged[n].last_insert_id),
            };
            let left = actor::orphans_behind(staged[n].commands, counts[n]);
            each_failed(next.0, staged, memory, left, cx, n + 1, done.push(reply));
            let replies = actor::group_applied(s, staged, counts[0], cx).1;
            assert forall|i: int| 0 <= i < n implies (#[trigger] replies[i]) == done[i] by {
                assert(replies[i] == done.push(reply)[i]);
            }
            assert(replies[n] == done.push(reply)[n]);
        }
    }
}

// ---------------------------------------------------------------------------------------------
// What waits for a checkpoint
// ---------------------------------------------------------------------------------------------
proof fn changed_has(
    list: Seq<CommandModel>,
    at: int,
    done: Seq<(Seq<char>, Seq<char>)>,
    e: (Seq<char>, Seq<char>),
)
    requires
        0 <= at <= list.len(),
    ensures
        replay::changed_tables_from(list, at, done).contains(e) <==> done.contains(e) || exists|
            i: int,
        |
            at <= i < list.len() && commands::rows_target(#[trigger] list[i]) == Some(e),
    decreases list.len() - at,
{
    if at < list.len() {
        match commands::rows_target(list[at]) {
            None => {
                changed_has(list, at + 1, done, e);
            },
            Some((d, t)) => {
                let more = pairs::pair_added(done, d, t);
                changed_has(list, at + 1, more, e);
                pairs::pair_added_has(done, d, t);
                if more.contains(e) && !done.contains(e) {
                    let i = more.index_of(e);
                    if i < done.len() {
                        assert(done[i] == e);
                    }
                    assert(e == (d, t));
                }
            },
        }
    }
}

proof fn deferred_has(
    staged: Seq<RequestModel>,
    at: int,
    done: Seq<(Seq<char>, Seq<char>)>,
    e: (Seq<char>, Seq<char>),
)
    requires
        0 <= at <= staged.len(),
    ensures
        actor::deferred_from(staged, at, done).contains(e) <==> done.contains(e) || exists|i: int|
            at <= i < staged.len() && stages(#[trigger] staged[i], e),
    decreases staged.len() - at,
{
    if at < staged.len() {
        if commands::all_rows_only(staged[at].commands) {
            changed_has(staged[at].commands, 0, done, e);
            let more = replay::changed_tables_from(staged[at].commands, 0, done);
            deferred_has(staged, at + 1, more, e);
        } else {
            deferred_has(staged, at + 1, done, e);
        }
        assert(stages(staged[at], e) ==> exists|i: int|
            at <= i < staged.len() && stages(#[trigger] staged[i], e));
    }
}

/// Whether a request changes rows only, and rows of a table among them.
pub open spec fn stages(r: RequestModel, e: (Seq<char>, Seq<char>)) -> bool {
    &&& forall|j: int|
        0 <= j < r.commands.len() ==> commands::rows_target(#[trigger] r.commands[j]) is Some
    &&& exists|j: int|
        0 <= j < r.commands.len() && commands::rows_target(#[trigger] r.commands[j]) == Some(e)
}

/// The tables that wait for a checkpoint are those that waited, and those whose rows a request of
/// the group has staged.
pub proof fn staged_tables_wait_for_a_checkpoint(
    staged: Seq<RequestModel>,
    waiting: Seq<(Seq<char>, Seq<char>)>,
    d: Seq<char>,
    t: Seq<char>,
)
    ensures
        actor::deferred_from(staged, 0, waiting).contains((d, t)) <==> waiting.contains((d, t))
            || exists|i: int| 0 <= i < staged.len() && stages(#[trigger] staged[i], (d, t)),
{
    deferred_has(staged, 0, waiting, (d, t));
}

} // verus!
