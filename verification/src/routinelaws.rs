//! What commands do to the procedures of a database.
use crate::apply;
use crate::assoc;
use crate::batch;
use crate::commands::CommandModel;
use crate::database;
use crate::database::{DatabaseModel, ProcedureList};
use crate::guardlaws;
use crate::predicate::ContextModel;
use crate::replay;
use crate::replay::ReplayModel;
use crate::row::RowModel;
use crate::schema::{MetadataModel, ProcedureModel};
use crate::store::StoreModel;
use crate::text;
use crate::validate::ShadowModel;
use vstd::prelude::*;

verus! {

/// Whether a procedure has a name, up to case.
pub open spec fn has_routine(list: ProcedureList, name: Seq<char>) -> bool {
    exists|i: int| 0 <= i < list.len() && text::same_fold((#[trigger] list[i]).0, name)
}

/// Whether, of two databases, the later one has the tables of the earlier one, its name, and all its
/// procedures but one.
pub open spec fn all_but(before: DatabaseModel, after: DatabaseModel, stored: Seq<char>) -> bool {
    &&& after.tables == before.tables
    &&& after.name == before.name
    &&& forall|other: Seq<char>|
        other != stored ==> #[trigger] assoc::lookup(after.procedures, other) == assoc::lookup(
            before.procedures,
            other,
        ) && assoc::lookup(after.metadata, other) == assoc::lookup(before.metadata, other)
}

proof fn others_set<V>(s: Seq<(Seq<char>, V)>, name: Seq<char>, value: V)
    ensures
        assoc::lookup(assoc::with_entry(s, name, value), name) == Some(value),
        forall|other: Seq<char>|
            other != name ==> #[trigger] assoc::lookup(assoc::with_entry(s, name, value), other)
                == assoc::lookup(s, other),
{
    assoc::set_then_lookup(s, name, value, name);
    assert forall|other: Seq<char>| other != name implies #[trigger] assoc::lookup(
        assoc::with_entry(s, name, value),
        other,
    ) == assoc::lookup(s, other) by {
        assoc::set_then_lookup(s, name, value, other);
    }
}

proof fn others_stay<V>(s: Seq<(Seq<char>, V)>, name: Seq<char>)
    ensures
        assoc::lookup(assoc::without_entry(s, name), name) is None,
        forall|other: Seq<char>|
            other != name ==> #[trigger] assoc::lookup(assoc::without_entry(s, name), other)
                == assoc::lookup(s, other),
{
    assoc::remove_then_lookup(s, name, name);
    assert forall|other: Seq<char>| other != name implies #[trigger] assoc::lookup(
        assoc::without_entry(s, name),
        other,
    ) == assoc::lookup(s, other) by {
        assoc::remove_then_lookup(s, name, other);
    }
}

/// A procedure is created unless one has its name in any case. It is then stored with its metadata,
/// and nothing else changes; where it is refused, nothing changes.
pub proof fn procedures_are_created(
    db: DatabaseModel,
    d: Seq<char>,
    p: ProcedureModel,
    metadata: MetadataModel,
    rows: Seq<RowModel>,
    defer: bool,
    cx: ContextModel,
)
    ensures
        ({
            let c = CommandModel::CreateProcedureV2 { database: d, procedure: p, metadata };
            let (after, r) = apply::database_step(db, c, rows, defer, cx);
            &&& r is Err <==> has_routine(db.procedures, p.name)
            &&& r is Err ==> after == db
            &&& r is Ok ==> assoc::lookup(after.procedures, p.name) == Some(p) && assoc::lookup(
                after.metadata,
                p.name,
            ) == Some(metadata) && all_but(db, after, p.name)
        }),
        ({
            let c = CommandModel::CreateProcedure { database: d, procedure: p };
            let (after, r) = apply::database_step(db, c, rows, defer, cx);
            &&& r is Err <==> has_routine(db.procedures, p.name)
            &&& r is Err ==> after == db
            &&& r is Ok ==> assoc::lookup(after.procedures, p.name) == Some(p) && all_but(
                db,
                after,
                p.name,
            ) && (match assoc::lookup(after.metadata, p.name) {
                Some(m) => m.created == cx.moment.seconds && m.last_altered == cx.moment.seconds,
                None => false,
            })
        }),
{
    reveal(apply::database_step);
    reveal(database::procedure_created);
    reveal(database::procedure_dropped);
    reveal(database::procedure_altered);
    guardlaws::a_made_procedure_is_found(db.procedures, p, p.name);
    others_set(db.procedures, p.name, p);
    others_set(db.metadata, p.name, metadata);
    others_set(db.metadata, p.name, crate::schema::created_metadata(cx.moment));
}

/// A procedure is dropped by its name in any case, with its metadata, and nothing else changes.
pub proof fn procedures_are_dropped(
    db: DatabaseModel,
    d: Seq<char>,
    name: Seq<char>,
    rows: Seq<RowModel>,
    defer: bool,
    cx: ContextModel,
)
    ensures
        ({
            let c = CommandModel::DropProcedure { database: d, procedure: name };
            let (after, r) = apply::database_step(db, c, rows, defer, cx);
            &&& r is Ok <==> has_routine(db.procedures, name)
            &&& r is Err ==> after == db
            &&& r is Ok ==> exists|stored: Seq<char>|
                text::same_fold(stored, name) && assoc::lookup(after.procedures, stored) is None
                    && assoc::lookup(after.metadata, stored) is None && #[trigger] all_but(
                    db,
                    after,
                    stored,
                )
        }),
{
    reveal(apply::database_step);
    reveal(database::procedure_created);
    reveal(database::procedure_dropped);
    reveal(database::procedure_altered);
    guardlaws::a_dropped_procedure_is_gone(db.procedures, name, name);
    guardlaws::fold_is(db.procedures, name, 0);
    let c = CommandModel::DropProcedure { database: d, procedure: name };
    let (after, r) = apply::database_step(db, c, rows, defer, cx);
    match database::fold_entry(db.procedures, name, 0) {
        Some(i) => {
            let stored = db.procedures[i].0;
            others_stay(db.procedures, stored);
            others_stay(db.metadata, stored);
            assert(all_but(db, after, stored));
        },
        None => {},
    }
}

/// Altering a procedure gives it another text and other metadata, under the name that it has.
pub proof fn procedures_are_altered(
    db: DatabaseModel,
    d: Seq<char>,
    name: Seq<char>,
    sql: Seq<char>,
    metadata: MetadataModel,
    rows: Seq<RowModel>,
    defer: bool,
    cx: ContextModel,
)
    ensures
        ({
            let c = CommandModel::AlterProcedureV2 {
                database: d,
                procedure: name,
                create_sql: sql,
                metadata,
            };
            let (after, r) = apply::database_step(db, c, rows, defer, cx);
            &&& r is Ok <==> has_routine(db.procedures, name)
            &&& r is Err ==> after == db
            &&& r is Ok ==> after.tables == db.tables && after.name == db.name
                && after.procedures.len() == db.procedures.len() && exists|i: int|
                0 <= i < db.procedures.len() && text::same_fold(
                    (#[trigger] db.procedures[i]).0,
                    name,
                ) && after.procedures[i].0 == db.procedures[i].0
                    && after.procedures[i].1.create_sql == sql && after.procedures[i].1.name
                    == db.procedures[i].1.name && assoc::lookup(after.metadata, db.procedures[i].0)
                    == Some(metadata) && forall|j: int|
                    0 <= j < db.procedures.len() && j != i ==> after.procedures[j]
                        == db.procedures[j]
        }),
{
    reveal(apply::database_step);
    reveal(database::procedure_created);
    reveal(database::procedure_dropped);
    reveal(database::procedure_altered);
    guardlaws::a_changed_procedure_says_something_else(db.procedures, name, sql);
    guardlaws::fold_is(db.procedures, name, 0);
    match database::fold_entry(db.procedures, name, 0) {
        Some(i) => {
            others_set(db.metadata, db.procedures[i].0, metadata);
        },
        None => {},
    }
}

/// What a change of the procedures of one database leaves of those of the others.
pub open spec fn elsewhere(
    before: Seq<(Seq<char>, ProcedureList)>,
    after: Seq<(Seq<char>, ProcedureList)>,
    d: Seq<char>,
) -> bool {
    forall|other: Seq<char>|
        other != d ==> #[trigger] assoc::lookup(after, other) == assoc::lookup(before, other)
}

/// A batch may create a procedure in a database that is there and has none of its name; the rest of
/// the batch sees it, and everything else as it was.
pub proof fn a_batch_sees_its_procedures(
    sh: ShadowModel,
    d: Seq<char>,
    p: ProcedureModel,
    s: StoreModel,
    cx: ContextModel,
)
    ensures
        ({
            let c = CommandModel::CreateProcedure { database: d, procedure: p };
            let list = assoc::lookup(sh.procedures, d);
            match batch::check_command(sh, c, s, cx) {
                Ok(after) => {
                    &&& list is Some && !has_routine(list->0, p.name)
                    &&& assoc::lookup(after.procedures, d) is Some
                    &&& assoc::lookup(assoc::lookup(after.procedures, d)->0, p.name) == Some(p)
                    &&& elsewhere(sh.procedures, after.procedures, d)
                    &&& after == ShadowModel { procedures: after.procedures, ..sh }
                },
                Err(_) => list is None || has_routine(list->0, p.name),
            }
        }),
{
    reveal(batch::check_command);
    reveal(batch::create_procedure_step);
    reveal(batch::drop_procedure_step);
    reveal(batch::alter_procedure_step);
    match assoc::lookup(sh.procedures, d) {
        Some(list) => {
            guardlaws::a_made_procedure_is_found(list, p, p.name);
            match database::procedure_added(list, p) {
                Ok(after) => others_set(sh.procedures, d, after),
                Err(_) => {},
            }
        },
        None => {},
    }
}

/// A batch may drop a procedure that is there; the rest of the batch does not see it any more.
pub proof fn a_batch_misses_dropped_procedures(
    sh: ShadowModel,
    d: Seq<char>,
    name: Seq<char>,
    s: StoreModel,
    cx: ContextModel,
)
    ensures
        ({
            let c = CommandModel::DropProcedure { database: d, procedure: name };
            let list = assoc::lookup(sh.procedures, d);
            match batch::check_command(sh, c, s, cx) {
                Ok(after) => {
                    &&& list is Some && has_routine(list->0, name)
                    &&& assoc::lookup(after.procedures, d) is Some
                    &&& exists|i: int|
                        0 <= i < list->0.len() && text::same_fold(
                            (#[trigger] list->0[i]).0,
                            name,
                        ) && assoc::lookup(
                            assoc::lookup(after.procedures, d)->0,
                            list->0[i].0,
                        ) is None
                    &&& elsewhere(sh.procedures, after.procedures, d)
                    &&& after == ShadowModel { procedures: after.procedures, ..sh }
                },
                Err(_) => list is None || !has_routine(list->0, name),
            }
        }),
{
    reveal(batch::check_command);
    reveal(batch::create_procedure_step);
    reveal(batch::drop_procedure_step);
    reveal(batch::alter_procedure_step);
    match assoc::lookup(sh.procedures, d) {
        Some(list) => {
            guardlaws::a_dropped_procedure_is_gone(list, name, name);
            match database::procedure_removed(list, name) {
                Ok(after) => others_set(sh.procedures, d, after),
                Err(_) => {},
            }
        },
        None => {},
    }
}

/// A batch may alter a procedure that is there; the rest of the batch sees the new text.
pub proof fn a_batch_sees_altered_procedures(
    sh: ShadowModel,
    d: Seq<char>,
    name: Seq<char>,
    sql: Seq<char>,
    s: StoreModel,
    cx: ContextModel,
)
    ensures
        ({
            let c = CommandModel::AlterProcedure { database: d, procedure: name, create_sql: sql };
            let list = assoc::lookup(sh.procedures, d);
            match batch::check_command(sh, c, s, cx) {
                Ok(after) => {
                    &&& list is Some && has_routine(list->0, name)
                    &&& assoc::lookup(after.procedures, d) is Some
                    &&& assoc::lookup(after.procedures, d)->0.len() == list->0.len()
                    &&& exists|i: int|
                        0 <= i < list->0.len() && text::same_fold(
                            (#[trigger] list->0[i]).0,
                            name,
                        ) && assoc::lookup(after.procedures, d)->0[i].1.create_sql == sql
                    &&& elsewhere(sh.procedures, after.procedures, d)
                    &&& after == ShadowModel { procedures: after.procedures, ..sh }
                },
                Err(_) => list is None || !has_routine(list->0, name),
            }
        }),
{
    reveal(batch::check_command);
    reveal(batch::alter_procedure_step);
    match assoc::lookup(sh.procedures, d) {
        Some(list) => {
            guardlaws::a_changed_procedure_says_something_else(list, name, sql);
            match database::procedure_changed(list, name, sql) {
                Ok(after) => others_set(sh.procedures, d, after),
                Err(_) => {},
            }
        },
        None => {},
    }
}

/// On replay a procedure is created where its database is known and has none of its name, and
/// passed over elsewhere.
pub proof fn missing_procedures_are_replayed(
    state: ReplayModel,
    d: Seq<char>,
    p: ProcedureModel,
    actual: StoreModel,
)
    ensures
        ({
            let c = CommandModel::CreateProcedure { database: d, procedure: p };
            let list = assoc::lookup(state.procedures, d);
            match replay::replay_step(state, c, actual) {
                Ok((after, again)) => {
                    &&& again <==> list is Some && !has_routine(list->0, p.name)
                    &&& !again ==> after == state
                    &&& after.catalog == state.catalog
                    &&& elsewhere(state.procedures, after.procedures, d)
                    &&& again ==> assoc::lookup(after.procedures, d) is Some && assoc::lookup(
                        assoc::lookup(after.procedures, d)->0,
                        p.name,
                    ) == Some(p)
                },
                Err(_) => false,
            }
        }),
{
    reveal(replay::replay_step);
    match assoc::lookup(state.procedures, d) {
        Some(list) => {
            guardlaws::a_made_procedure_is_found(list, p, p.name);
            match database::procedure_added(list, p) {
                Ok(after) => others_set(state.procedures, d, after),
                Err(_) => {},
            }
        },
        None => {},
    }
}

/// On replay a procedure is dropped where it is known, and passed over elsewhere.
pub proof fn known_procedures_are_dropped_on_replay(
    state: ReplayModel,
    d: Seq<char>,
    name: Seq<char>,
    actual: StoreModel,
)
    ensures
        ({
            let c = CommandModel::DropProcedure { database: d, procedure: name };
            let list = assoc::lookup(state.procedures, d);
            match replay::replay_step(state, c, actual) {
                Ok((after, again)) => {
                    &&& again <==> list is Some && has_routine(list->0, name)
                    &&& !again ==> after == state
                    &&& after.catalog == state.catalog
                    &&& elsewhere(state.procedures, after.procedures, d)
                    &&& again ==> exists|i: int|
                        0 <= i < list->0.len() && text::same_fold(
                            (#[trigger] list->0[i]).0,
                            name,
                        ) && assoc::lookup(
                            assoc::lookup(after.procedures, d)->0,
                            list->0[i].0,
                        ) is None
                },
                Err(_) => false,
            }
        }),
{
    reveal(replay::replay_step);
    match assoc::lookup(state.procedures, d) {
        Some(list) => {
            guardlaws::a_dropped_procedure_is_gone(list, name, name);
            match database::procedure_removed(list, name) {
                Ok(after) => others_set(state.procedures, d, after),
                Err(_) => {},
            }
        },
        None => {},
    }
}

} // verus!
