//! What gathering requests leaves as it was.
use crate::actor;
use crate::actor::{GroupModel, RequestModel};
use crate::assoc;
use crate::commands::CommandModel;
use crate::database;
use crate::database::DatabaseModel;
use crate::prepare;
use crate::prepare::DraftModel;
use crate::predicate::ContextModel;
use crate::row::RowModel;
use crate::schema::{MomentModel, SchemaModel};
use crate::store::StoreModel;
use crate::table::TableModel;
use vstd::prelude::*;

verus! {

pub open spec fn uncounted_table(t: TableModel) -> TableModel {
    TableModel { next_id: None, ..t }
}

pub open spec fn uncounted_database(db: DatabaseModel) -> DatabaseModel {
    DatabaseModel {
        tables: db.tables.map_values(|e: (Seq<char>, TableModel)| (e.0, uncounted_table(e.1))),
        ..db
    }
}

/// A store without the numbers from which its tables count on: its schemas, rows and procedures.
pub open spec fn uncounted(s: StoreModel) -> StoreModel {
    s.map_values(|e: (Seq<char>, DatabaseModel)| (e.0, uncounted_database(e.1)))
}

proof fn counting_keeps(db: DatabaseModel, name: Seq<char>, next: Option<u64>)
    ensures
        uncounted_database(database::db_counted_to(db, name, next)) == uncounted_database(db),
{
    assoc::entry_found(db.tables, name, 0);
    let after = database::db_counted_to(db, name, next);
    assert(uncounted_database(after).tables =~= uncounted_database(db).tables);
}

proof fn reserving_keeps(db: DatabaseModel, name: Seq<char>, rows: Seq<RowModel>, m: MomentModel)
    ensures
        uncounted_database(database::rows_reserved(db, name, rows, m).0) == uncounted_database(db),
{
    reveal(database::rows_reserved);
    match database::table_of(db, name) {
        None => {},
        Some(t) => match crate::images::numbered(t.schema, t.next_id, rows) {
            Err(_) => {},
            Ok(n) => {
                counting_keeps(db, name, n.next);
            },
        },
    }
}

proof fn reserved_keeps(
    s: StoreModel,
    d: Seq<char>,
    t: Seq<char>,
    rows: Seq<RowModel>,
    cx: ContextModel,
)
    ensures
        uncounted(prepare::reserved_in(s, d, t, rows, cx).0) == uncounted(s),
{
    assoc::entry_found(s, d, 0);
    match crate::store::database_of(s, d) {
        None => {},
        Some(db) => {
            reserving_keeps(db, t, rows, cx.moment);
            assert(uncounted(prepare::reserved_in(s, d, t, rows, cx).0) =~= uncounted(s));
        },
    }
}

proof fn stretch_keeps(
    s: StoreModel,
    created: Seq<(Seq<char>, Seq<char>, SchemaModel)>,
    c: CommandModel,
    rows: Seq<RowModel>,
    cx: ContextModel,
)
    ensures
        uncounted(prepare::stretch_rows(s, created, c, rows, cx).0) == uncounted(s),
{
    reveal(prepare::stretch_rows);
    let (d, t) = crate::commands::rows_target(c)->0;
    reserved_keeps(s, d, t, rows, cx);
}

proof fn drafting_keeps(
    s: StoreModel,
    draft: DraftModel,
    list: Seq<CommandModel>,
    cx: ContextModel,
    at: int,
)
    ensures
        uncounted(prepare::drafted_from(s, draft, list, cx, at).0) == uncounted(s),
    decreases list.len() - at,
{
    if at < 0 || at >= list.len() {
        return ;
    }
    let c = list[at];
    match c {
        CommandModel::CreateTable { database, schema } => {
            drafting_keeps(
                s,
                DraftModel {
                    prepared: draft.prepared.push(c),
                    created: crate::pairs::with_pair(draft.created, database, schema.name, schema),
                    ..draft
                },
                list,
                cx,
                at + 1,
            );
        },
        CommandModel::ExpressionUpdate { .. } => {},
        CommandModel::ForeignKeyChecksDisabled => {
            drafting_keeps(s, DraftModel { foreign_keys: false, ..draft }, list, cx, at + 1);
        },
        _ => {
            if c is Insert || c is Upsert {
                let end = prepare::stretch_end(list, c, at + 1);
                prepare::stretch_bounds(list, c, at + 1);
                let taken = crate::apply::rows_of(list, at, end);
                stretch_keeps(s, draft.created, c, taken, cx);
                let (after, r) = prepare::stretch_rows(s, draft.created, c, taken, cx);
                match r {
                    Err(_) => {},
                    Ok((rows, id)) => {
                        drafting_keeps(
                            after,
                            DraftModel {
                                prepared: draft.prepared + prepare::with_rows(list, at, rows),
                                last_id: if draft.last_id == 0 && prepare::counts_number(
                                    list,
                                    at,
                                    end,
                                ) {
                                    id
                                } else {
                                    draft.last_id
                                },
                                ..draft
                            },
                            list,
                            cx,
                            end,
                        );
                    },
                }
            } else {
                drafting_keeps(
                    s,
                    DraftModel { prepared: draft.prepared.push(c), ..draft },
                    list,
                    cx,
                    at + 1,
                );
            }
        },
    }
}

/// Preparing a request changes no row, no schema and no procedure, whether it succeeds or not:
/// only the numbers that AUTO_INCREMENT has given away stay given away.
pub proof fn preparing_changes_numbers_only(
    s: StoreModel,
    list: Seq<CommandModel>,
    prefix: nat,
    cx: ContextModel,
)
    ensures
        uncounted(prepare::prepared(s, list, prefix, cx).0) == uncounted(s),
{
    drafting_keeps(s, prepare::empty_draft(), list, cx, 0);
}

proof fn step_changes_numbers_only(g: GroupModel, r: RequestModel, cx: ContextModel)
    ensures
        uncounted(actor::group_step(g, r, cx).0.store) == uncounted(g.store),
{
    reveal(actor::offered);
    preparing_changes_numbers_only(g.store, r.commands, 0, cx);
}

proof fn steps_change_numbers_only(
    g: GroupModel,
    pending: Seq<RequestModel>,
    cx: ContextModel,
    at: int,
)
    ensures
        uncounted(actor::group_from(g, pending, cx, at).0.store) == uncounted(g.store),
    decreases pending.len() - at,
{
    if 0 <= at < pending.len() {
        step_changes_numbers_only(g, pending[at], cx);
        let (next, back) = actor::group_step(g, pending[at], cx);
        if back is None {
            steps_change_numbers_only(next, pending, cx, at + 1);
        }
    }
}

/// Gathering a group changes no row, no schema and no procedure. So a request that is refused has
/// changed none: whatever it would have done, nothing of it is done.
pub proof fn gathering_changes_numbers_only(
    s: StoreModel,
    pending: Seq<RequestModel>,
    cx: ContextModel,
)
    ensures
        uncounted(actor::group_from(actor::empty_group(s), pending, cx, 0).0.store) == uncounted(s),
{
    steps_change_numbers_only(actor::empty_group(s), pending, cx, 0);
}

} // verus!
