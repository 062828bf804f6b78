//! The storage engine: the store with its counters, pool and checkpoints.
use crate::actor::ActorCheckpointState;
use crate::assoc;
use crate::bufferpool;
use crate::bufferpool::{BufferPool, PoolModel};
use crate::commands::{CommandModel, WriteCommand};
use crate::database;
use crate::database::{Database, DatabaseModel};
use crate::error;
use crate::error::{DbError, DbResult};
use crate::fkeys;
use crate::fkeys::{ForeignKeyModel, ForeignKeySpec};
use crate::page::PageModel;
use crate::predicate::{Context, RowPredicate};
use crate::prepare;
use crate::row::{Row, RowModel};
use crate::schema::{Moment, MomentModel};
use crate::search;
use crate::store;
use crate::store::{Store, StoreModel};
use crate::table;
use crate::text;
use crate::validate::TablesModel;
use vstd::prelude::*;

verus! {

// ---------------------------------------------------------------------------------------------
// Counters
// ---------------------------------------------------------------------------------------------
/// What the engine has done since it started. Counters start over when they are full.
#[derive(Debug, Clone, Copy, PartialEq, Eq, Structural)]
pub struct StorageStats {
    pub reads: u64,
    pub writes: u64,
    pub errors: u64,
    pub queue_depth: usize,
    pub group_commits: u64,
    pub grouped_requests: u64,
    pub checkpoints: u64,
    pub checkpoint_errors: u64,
    pub prepare_validation_micros: u64,
    pub wal_sync_micros: u64,
    pub apply_micros: u64,
    pub checkpoint_micros: u64,
}

#[derive(Debug, Clone, Copy, PartialEq, Eq, Structural)]
pub struct StorageStatsSnapshot {
    pub uptime_seconds: u64,
    pub reads: u64,
    pub writes: u64,
    pub errors: u64,
    pub actor_queue_depth: usize,
    pub buffer_pool_pages: usize,
    pub group_commits: u64,
    pub grouped_requests: u64,
    pub checkpoints: u64,
    pub checkpoint_errors: u64,
    pub prepare_validation_micros: u64,
    pub wal_sync_micros: u64,
    pub apply_micros: u64,
    pub checkpoint_micros: u64,
}

pub open spec fn no_stats() -> StorageStats {
    StorageStats {
        reads: 0,
        writes: 0,
        errors: 0,
        queue_depth: 0,
        group_commits: 0,
        grouped_requests: 0,
        checkpoints: 0,
        checkpoint_errors: 0,
        prepare_validation_micros: 0,
        wal_sync_micros: 0,
        apply_micros: 0,
        checkpoint_micros: 0,
    }
}

impl Default for StorageStats {
    fn default() -> (r: Self)
        ensures
            r == no_stats(),
    {
        StorageStats {
            reads: 0,
            writes: 0,
            errors: 0,
            queue_depth: 0,
            group_commits: 0,
            grouped_requests: 0,
            checkpoints: 0,
            checkpoint_errors: 0,
            prepare_validation_micros: 0,
            wal_sync_micros: 0,
            apply_micros: 0,
            checkpoint_micros: 0,
        }
    }
}

impl StorageStats {
    pub fn record_read(&mut self)
        ensures
            *final(self) == (StorageStats { reads: old(self).reads.wrapping_add(1), ..*old(self) }),
    {
        self.reads = self.reads.wrapping_add(1);
    }

    /// A request that waits.
    pub fn record_queued(&mut self)
        ensures
            *final(self) == (StorageStats {
                queue_depth: old(self).queue_depth.wrapping_add(1),
                ..*old(self)
            }),
    {
        self.queue_depth = self.queue_depth.wrapping_add(1);
    }

    /// A request that no longer waits.
    pub fn record_unqueued(&mut self)
        ensures
            *final(self) == (StorageStats {
                queue_depth: old(self).queue_depth.wrapping_sub(1),
                ..*old(self)
            }),
    {
        self.queue_depth = self.queue_depth.wrapping_sub(1);
    }

    /// How a write came out.
    pub fn record_write_result(&mut self, succeeded: bool)
        ensures
            *final(self) == (StorageStats {
                writes: if succeeded {
                    old(self).writes.wrapping_add(1)
                } else {
                    old(self).writes
                },
                errors: if succeeded {
                    old(self).errors
                } else {
                    old(self).errors.wrapping_add(1)
                },
                ..*old(self)
            }),
    {
        if succeeded {
            self.writes = self.writes.wrapping_add(1);
        } else {
            self.errors = self.errors.wrapping_add(1);
        }
    }

    /// A transaction that was prepared: only failures are counted.
    pub fn record_prepared(&mut self, succeeded: bool)
        ensures
            *final(self) == (StorageStats {
                queue_depth: old(self).queue_depth.wrapping_sub(1),
                errors: if succeeded {
                    old(self).errors
                } else {
                    old(self).errors.wrapping_add(1)
                },
                ..*old(self)
            }),
    {
        self.queue_depth = self.queue_depth.wrapping_sub(1);
        if !succeeded {
            self.errors = self.errors.wrapping_add(1);
        }
    }

    pub fn record_group(&mut self, requests: u64)
        ensures
            *final(self) == (StorageStats {
                group_commits: old(self).group_commits.wrapping_add(1),
                grouped_requests: old(self).grouped_requests.wrapping_add(requests),
                ..*old(self)
            }),
    {
        self.group_commits = self.group_commits.wrapping_add(1);
        self.grouped_requests = self.grouped_requests.wrapping_add(requests);
    }

    pub fn record_checkpoint(&mut self, succeeded: bool, micros: u64)
        ensures
            *final(self) == (StorageStats {
                checkpoints: if succeeded {
                    old(self).checkpoints.wrapping_add(1)
                } else {
                    old(self).checkpoints
                },
                checkpoint_errors: if succeeded {
                    old(self).checkpoint_errors
                } else {
                    old(self).checkpoint_errors.wrapping_add(1)
                },
                checkpoint_micros: old(self).checkpoint_micros.wrapping_add(micros),
                ..*old(self)
            }),
    {
        if succeeded {
            self.checkpoints = self.checkpoints.wrapping_add(1);
        } else {
            self.checkpoint_errors = self.checkpoint_errors.wrapping_add(1);
        }
        self.checkpoint_micros = self.checkpoint_micros.wrapping_add(micros);
    }

    /// Time spent on a group: checking it, logging it, applying it.
    pub fn record_times(&mut self, prepare: u64, sync: u64, apply: u64)
        ensures
            *final(self) == (StorageStats {
                prepare_validation_micros: old(self).prepare_validation_micros.wrapping_add(
                    prepare,
                ),
                wal_sync_micros: old(self).wal_sync_micros.wrapping_add(sync),
                apply_micros: old(self).apply_micros.wrapping_add(apply),
                ..*old(self)
            }),
    {
        self.prepare_validation_micros = self.prepare_validation_micros.wrapping_add(prepare);
        self.wal_sync_micros = self.wal_sync_micros.wrapping_add(sync);
        self.apply_micros = self.apply_micros.wrapping_add(apply);
    }

    pub fn snapshot(&self, uptime_seconds: u64, buffer_pool_pages: usize) -> (r:
        StorageStatsSnapshot)
        ensures
            r == (StorageStatsSnapshot {
                uptime_seconds: uptime_seconds,
                reads: self.reads,
                writes: self.writes,
                errors: self.errors,
                actor_queue_depth: self.queue_depth,
                buffer_pool_pages: buffer_pool_pages,
                group_commits: self.group_commits,
                grouped_requests: self.grouped_requests,
                checkpoints: self.checkpoints,
                checkpoint_errors: self.checkpoint_errors,
                prepare_validation_micros: self.prepare_validation_micros,
                wal_sync_micros: self.wal_sync_micros,
                apply_micros: self.apply_micros,
                checkpoint_micros: self.checkpoint_micros,
            }),
    {
        StorageStatsSnapshot {
            uptime_seconds: uptime_seconds,
            reads: self.reads,
            writes: self.writes,
            errors: self.errors,
            actor_queue_depth: self.queue_depth,
            buffer_pool_pages: buffer_pool_pages,
            group_commits: self.group_commits,
            grouped_requests: self.grouped_requests,
            checkpoints: self.checkpoints,
            checkpoint_errors: self.checkpoint_errors,
            prepare_validation_micros: self.prepare_validation_micros,
            wal_sync_micros: self.wal_sync_micros,
            apply_micros: self.apply_micros,
            checkpoint_micros: self.checkpoint_micros,
        }
    }
}

// ---------------------------------------------------------------------------------------------
// Tables that belong together
// ---------------------------------------------------------------------------------------------
/// The pairs of a database and each of the names.
pub open spec fn paired(d: Seq<char>, names: Seq<Seq<char>>) -> Seq<(Seq<char>, Seq<char>)> {
    names.map_values(|n: Seq<char>| (d, n))
}

/// The tables that foreign keys tie to those that a request changes, for the databases from the
/// `at`-th on.
pub open spec fn related_from(
    list: Seq<CommandModel>,
    names: Seq<Seq<char>>,
    s: StoreModel,
    at: int,
    done: Seq<(Seq<char>, Seq<char>)>,
) -> Result<Seq<(Seq<char>, Seq<char>)>, Seq<char>>
    decreases names.len() - at,
{
    if at < 0 || at >= names.len() {
        Ok(done)
    } else {
        match store::database_of(s, names[at]) {
            None => Err(store::unknown_database(names[at])),
            Some(db) => {
                let tied = prepare::related_tables(prepare::all_keys(prepare::schemas_of(db)));
                related_from(
                    list,
                    names,
                    s,
                    at + 1,
                    if prepare::any_related(list, names[at], tied) {
                        done + paired(names[at], tied)
                    } else {
                        done
                    },
                )
            },
        }
    }
}

fn pair_names(d: &str, names: &Vec<String>, out: &mut Vec<(String, String)>)
    ensures
        final(out).deep_view() == old(out).deep_view() + paired(d@, names.deep_view()),
{
    let ghost before = out.deep_view();
    let ghost target = paired(d@, names.deep_view());
    let mut i: usize = 0;
    assert(out.deep_view() =~= before + target.take(0));
    while i < names.len()
        invariant
            i <= names@.len(),
            target == paired(d@, names.deep_view()),
            out.deep_view() == before + target.take(i as int),
        decreases names@.len() - i,
    {
        let ghost prior = out.deep_view();
        out.push((text::copy_text(d), text::copy_text(names[i].as_str())));
        assert(names.deep_view()[i as int] == names@[i as int]@);
        assert(out.deep_view() =~= prior.push(target[i as int]));
        assert(out.deep_view() =~= before + target.take(i + 1));
        i += 1;
    }
    assert(target.take(i as int) =~= target);
}

/// The first of the keys from `at` on that refers to a table.
pub open spec fn key_to(keys: Seq<ForeignKeyModel>, t: Seq<char>, at: int) -> Option<Seq<char>>
    decreases keys.len() - at,
{
    if at < 0 || at >= keys.len() {
        None
    } else if keys[at].parent_table == t {
        Some(keys[at].name)
    } else {
        key_to(keys, t, at + 1)
    }
}

/// The first other table from the `at`-th on with a key that refers to a table, and the key.
pub open spec fn referring_from(tables: TablesModel, t: Seq<char>, at: int) -> Option<
    (Seq<char>, Seq<char>),
>
    decreases tables.len() - at,
{
    if at < 0 || at >= tables.len() {
        None
    } else if tables[at].0 == t {
        referring_from(tables, t, at + 1)
    } else {
        match key_to(fkeys::foreign_keys(tables[at].0, tables[at].1), t, 0) {
            Some(name) => Some((tables[at].0, name)),
            None => referring_from(tables, t, at + 1),
        }
    }
}

/// Why a table cannot be truncated.
pub open spec fn truncate_refusal(
    s: StoreModel,
    d: Seq<char>,
    t: Seq<char>,
    foreign_key_checks: bool,
) -> Option<Seq<char>> {
    match store::database_of(s, d) {
        None => Some(store::unknown_database(d)),
        Some(db) => if database::table_of(db, t) is None {
            Some("Table '"@ + d + "."@ + t + "' doesn't exist"@)
        } else if !foreign_key_checks {
            None
        } else {
            match referring_from(prepare::schemas_of(db), t, 0) {
                None => None,
                Some((child, name)) => Some(
                    "Cannot truncate a table referenced in a foreign key constraint (`"@ + d
                        + "`.`"@ + child + "`, CONSTRAINT `"@ + name + "`)"@,
                ),
            }
        },
    }
}

fn find_key_to(keys: &Vec<ForeignKeySpec>, t: &str) -> (r: Option<String>)
    ensures
        r.deep_view() == key_to(keys.deep_view(), t@, 0),
{
    let ghost all = keys.deep_view();
    let mut i: usize = 0;
    while i < keys.len()
        invariant
            i <= keys@.len(),
            all == keys.deep_view(),
            key_to(all, t@, i as int) == key_to(all, t@, 0),
        decreases keys@.len() - i,
    {
        assert(all[i as int] == keys@[i as int]@);
        if text::text_equal(keys[i].parent_table.as_str(), t) {
            return Some(text::copy_text(keys[i].name.as_str()));
        }
        i += 1;
    }
    None
}

// ---------------------------------------------------------------------------------------------
// Work on every table
// ---------------------------------------------------------------------------------------------
/// The staged rows of a database's tables from the `at`-th name on put on their pages.
pub open spec fn tables_flushed(
    db: DatabaseModel,
    names: Seq<Seq<char>>,
    m: MomentModel,
    at: int,
) -> (DatabaseModel, Result<(), Seq<char>>)
    decreases names.len() - at,
{
    if at < 0 || at >= names.len() {
        (db, Ok(()))
    } else {
        match database::checkpointed(db, names[at], m) {
            Err(e) => (db, Err(e)),
            Ok(after) => tables_flushed(after, names, m, at + 1),
        }
    }
}

pub open spec fn table_names(db: DatabaseModel) -> Seq<Seq<char>> {
    db.tables.map_values(|e: (Seq<char>, table::TableModel)| e.0)
}

/// The staged rows of the databases from the `at`-th on put on their pages.
pub open spec fn flushed_from(s: StoreModel, m: MomentModel, at: int) -> (
    StoreModel,
    Result<(), Seq<char>>,
)
    decreases s.len() - at,
{
    if at < 0 || at >= s.len() {
        (s, Ok(()))
    } else {
        let (db, r) = tables_flushed(s[at].1, table_names(s[at].1), m, 0);
        let next = s.update(at, (s[at].0, db));
        match r {
            Err(e) => (next, Err(e)),
            Ok(_) => flushed_from(next, m, at + 1),
        }
    }
}

pub open spec fn is_temporary(name: Seq<char>) -> bool {
    search::starts_with(name, "__mydb_tmp_"@)
}

/// Tables left by sessions that ended, from the `at`-th name on dropped; and how many were.
pub open spec fn tables_cleaned(
    db: DatabaseModel,
    names: Seq<Seq<char>>,
    at: int,
    removed: u64,
) -> (DatabaseModel, u64, Result<(), Seq<char>>)
    decreases names.len() - at,
{
    if at < 0 || at >= names.len() {
        (db, removed, Ok(()))
    } else if !is_temporary(names[at]) {
        tables_cleaned(db, names, at + 1, removed)
    } else if database::table_of(db, names[at]) is None {
        (db, removed, Err(database::no_table(names[at])))
    } else {
        match database::component(names[at]) {
            Err(e) => (db, removed, Err(e)),
            Ok(_) => tables_cleaned(
                DatabaseModel { tables: assoc::without_entry(db.tables, names[at]), ..db },
                names,
                at + 1,
                removed.saturating_add(1),
            ),
        }
    }
}

pub open spec fn cleaned_from(s: StoreModel, at: int, removed: u64) -> (
    StoreModel,
    u64,
    Result<(), Seq<char>>,
)
    decreases s.len() - at,
{
    if at < 0 || at >= s.len() {
        (s, removed, Ok(()))
    } else {
        let (db, n, r) = tables_cleaned(s[at].1, table_names(s[at].1), 0, removed);
        let next = s.update(at, (s[at].0, db));
        match r {
            Err(e) => (next, n, Err(e)),
            Ok(_) => cleaned_from(next, at + 1, n),
        }
    }
}

#[verifier::loop_isolation(false)]
fn flush_database(db: &mut Database, m: &Moment) -> (r: DbResult<()>)
    requires
        old(db).wf(),
    ensures
        final(db).wf(),
        (final(db)@, error::outcome(r)) == tables_flushed(
            old(db)@,
            table_names(old(db)@),
            m@,
            0,
        ),
{
    let names = db.list_tables();
    let ghost all = names.deep_view();
    let ghost whole = tables_flushed(db@, all, m@, 0);
    let mut i: usize = 0;
    while i < names.len()
        invariant
            i <= names@.len(),
            db.wf(),
            all == names.deep_view(),
            tables_flushed(db@, all, m@, i as int) == whole,
        decreases names@.len() - i,
    {
        assert(all[i as int] == names@[i as int]@);
        match db.checkpoint_table(names[i].as_str(), m) {
            Err(e) => {
                return Err(e);
            },
            Ok(_) => {},
        }
        i += 1;
    }
    Ok(())
}

#[verifier::loop_isolation(false)]
fn clean_database(db: &mut Database, removed: u64) -> (r: (u64, DbResult<()>))
    requires
        old(db).wf(),
    ensures
        final(db).wf(),
        (final(db)@, r.0, error::outcome(r.1)) == tables_cleaned(
            old(db)@,
            table_names(old(db)@),
            0,
            removed,
        ),
{
    let names = db.list_tables();
    let ghost all = names.deep_view();
    let ghost whole = tables_cleaned(db@, all, 0, removed);
    let mut count: u64 = removed;
    let mut i: usize = 0;
    while i < names.len()
        invariant
            i <= names@.len(),
            db.wf(),
            all == names.deep_view(),
            tables_cleaned(db@, all, i as int, count) == whole,
        decreases names@.len() - i,
    {
        assert(all[i as int] == names@[i as int]@);
        if search::text_starts_with(names[i].as_str(), "__mydb_tmp_") {
            match db.drop_table(names[i].as_str()) {
                Err(e) => {
                    return (count, Err(e));
                },
                Ok(_) => {},
            }
            count = count.saturating_add(1);
        }
        i += 1;
    }
    (count, Ok(()))
}

proof fn store_at(before: Store, after: Store, i: int)
    requires
        before.wf(),
        0 <= i < before.databases@.len(),
        after.databases@.len() == before.databases@.len(),
        forall|j: int|
            0 <= j < before.databases@.len() && j != i ==> (#[trigger] after.databases@[j])
                == before.databases@[j],
        after.databases@[i].0 == before.databases@[i].0,
        after.databases@[i].1.wf(),
    ensures
        after.wf(),
        after@ == before@.update(i, (before@[i].0, after.databases@[i].1@)),
{
    assert(before@[i].0 == before.databases@[i].0@);
    assert(after@ =~= before@.update(i, (before@[i].0, after.databases@[i].1@)));
}

// ---------------------------------------------------------------------------------------------
// The manager
// ---------------------------------------------------------------------------------------------
pub struct StorageEngineManager {
    pub store: Store,
    pub buffer_pool: BufferPool,
    pub stats: StorageStats,
    pub checkpoint_state: ActorCheckpointState,
}

impl StorageEngineManager {
    pub open spec fn wf(self) -> bool {
        self.store.wf()
    }

    pub fn new(page_size: usize, buffer_pool_size: &str) -> (r: Self)
        requires
            page_size > 0,
            bufferpool::size_named(buffer_pool_size@) <= usize::MAX,
        ensures
            r.wf(),
            r.store@ == StoreModel::empty(),
            r.buffer_pool@.pages == Seq::<(Seq<char>, PageModel)>::empty(),
            r.buffer_pool@.max_pages == bufferpool::size_named(buffer_pool_size@) / (
            page_size as nat),
            r.stats == no_stats(),
            r.checkpoint_state.tables.deep_view() == Seq::<(Seq<char>, Seq<char>)>::empty(),
            r.checkpoint_state.transactions@ == Seq::<u64>::empty(),
            r.checkpoint_state.groups_since_checkpoint == 0,
    {
        StorageEngineManager {
            store: Store::new(),
            buffer_pool: BufferPool::new(page_size, buffer_pool_size),
            stats: StorageStats::default(),
            checkpoint_state: ActorCheckpointState::new(),
        }
    }

    pub fn get_database(&self, name: &str) -> (r: Option<&Database>)
        requires
            self.wf(),
        ensures
            r is Some == store::database_of(self.store@, name@) is Some,
            r matches Some(db) ==> db.wf() && store::database_of(self.store@, name@) == Some(db@),
    {
        self.store.database(name)
    }

    /// The names of the databases, in order.
    pub fn list_databases(&self) -> (r: Vec<String>)
        ensures
            r.deep_view() == assoc::listed(
                self.store@.map_values(|e: (Seq<char>, DatabaseModel)| e.0).to_set(),
            ),
    {
        let names = self.store.database_names();
        assoc::listed_names(&names)
    }

    /// The tables that a request may read or change through foreign keys.
    pub fn referential_tables_for_commands(&self, list: &Vec<WriteCommand>) -> (r: DbResult<
        Vec<(String, String)>,
    >)
        requires
            self.wf(),
        ensures
            error::outcome(r) == related_from(
                list.deep_view(),
                prepare::touched(list.deep_view()),
                self.store@,
                0,
                Seq::empty(),
            ),
    {
        let ghost all = list.deep_view();
        let names = prepare::touched_databases(list);
        let ghost touched = names.deep_view();
        let ghost whole = related_from(all, touched, self.store@, 0, Seq::empty());
        let mut out: Vec<(String, String)> = Vec::new();
        let mut i: usize = 0;
        assert(out.deep_view() =~= Seq::empty());
        while i < names.len()
            invariant
                i <= names@.len(),
                self.wf(),
                all == list.deep_view(),
                touched == names.deep_view(),
                touched == prepare::touched(all),
                whole == related_from(all, touched, self.store@, 0, Seq::empty()),
                related_from(all, touched, self.store@, i as int, out.deep_view()) == whole,
            decreases names@.len() - i,
        {
            assert(touched[i as int] == names@[i as int]@);
            let db = match self.store.database(names[i].as_str()) {
                None => {
                    return Err(store::unknown_database_error(names[i].as_str()));
                },
                Some(db) => db,
            };
            let schemas = db.schemas();
            let keys = prepare::collect_keys(&schemas);
            let tied = prepare::collect_related(&keys);
            if prepare::has_related(list, names[i].as_str(), &tied) {
                pair_names(names[i].as_str(), &tied, &mut out);
            }
            i += 1;
        }
        Ok(out)
    }

    pub fn validate_truncate_table(
        &self,
        database_name: &str,
        table_name: &str,
        foreign_key_checks: bool,
    ) -> (r: DbResult<()>)
        requires
            self.wf(),
        ensures
            match truncate_refusal(
                self.store@,
                database_name@,
                table_name@,
                foreign_key_checks,
            ) {
                Some(e) => r matches Err(x) && x.message@ == e,
                None => r is Ok,
            },
    {
        let db = match self.store.database(database_name) {
            None => {
                return Err(store::unknown_database_error(database_name));
            },
            Some(db) => db,
        };
        if db.get_table(table_name).is_none() {
            return Err(
                DbError::new(
                    error::cat5("Table '", database_name, ".", table_name, "' doesn't exist"),
                ),
            );
        }
        if !foreign_key_checks {
            return Ok(());
        }
        let schemas = db.schemas();
        let ghost all = schemas.deep_view();
        let mut i: usize = 0;
        while i < schemas.len()
            invariant
                i <= schemas@.len(),
                all == schemas.deep_view(),
                store::database_of(self.store@, database_name@) == Some(db@),
                database::table_of(db@, table_name@) is Some,
                foreign_key_checks,
                all == prepare::schemas_of(db@),
                referring_from(all, table_name@, i as int) == referring_from(all, table_name@, 0),
            decreases schemas@.len() - i,
        {
            assert(all[i as int] == (schemas@[i as int].0@, schemas@[i as int].1@));
            let child = schemas[i].0.as_str();
            if !text::text_equal(child, table_name) {
                let keys = fkeys::table_foreign_keys(child, &schemas[i].1);
                match find_key_to(&keys, table_name) {
                    None => {},
                    Some(name) => {
                        return Err(
                            DbError::new(
                                error::cat7(
                                    "Cannot truncate a table referenced in a foreign key constraint (`",
                                    database_name,
                                    "`.`",
                                    child,
                                    "`, CONSTRAINT `",
                                    name.as_str(),
                                    "`)",
                                ),
                            ),
                        );
                    },
                }
            }
            i += 1;
        }
        Ok(())
    }

    pub fn scan_table(&mut self, database: &str, name: &str) -> (r: DbResult<Vec<Row>>)
        requires
            old(self).wf(),
        ensures
            *final(self) == (StorageEngineManager {
                stats: StorageStats {
                    reads: old(self).stats.reads.wrapping_add(1),
                    ..old(self).stats
                },
                ..*old(self)
            }),
            error::outcome(r) == (match store::database_of(old(self).store@, database@) {
                None => Err::<Seq<RowModel>, Seq<char>>(store::unknown_database(database@)),
                Some(db) => match database::table_of(db, name@) {
                    None => Err(database::no_table(name@)),
                    Some(t) => Ok(t.rows()),
                },
            }),
    {
        self.stats.record_read();
        match self.store.database(database) {
            None => Err(store::unknown_database_error(database)),
            Some(db) => db.scan_table(name),
        }
    }

    pub fn scan_table_filtered_limit(
        &mut self,
        database: &str,
        name: &str,
        filter: &Option<RowPredicate>,
        limit: Option<usize>,
        cx: &Context,
    ) -> (r: DbResult<Vec<Row>>)
        requires
            old(self).wf(),
        ensures
            *final(self) == (StorageEngineManager {
                stats: StorageStats {
                    reads: old(self).stats.reads.wrapping_add(1),
                    ..old(self).stats
                },
                ..*old(self)
            }),
            match store::database_of(old(self).store@, database@) {
                None => r matches Err(e) && e.message@ == store::unknown_database(database@),
                Some(db) => if limit == Some(0usize) {
                    r matches Ok(rows) && rows.deep_view() == Seq::<RowModel>::empty()
                } else {
                    match database::table_of(db, name@) {
                        None => r matches Err(e) && e.message@ == database::no_table(name@),
                        Some(t) => r matches Ok(rows) && rows.deep_view() == table::scanned(
                            t,
                            filter.deep_view(),
                            limit,
                            cx@,
                        ),
                    }
                },
            },
    {
        self.stats.record_read();
        match self.store.database(database) {
            None => Err(store::unknown_database_error(database)),
            Some(db) => db.scan_table_filtered_limit(name, filter, limit, cx),
        }
    }

    /// Puts all staged rows on pages and cleans the pool.
    #[verifier::loop_isolation(false)]
    pub fn flush(&mut self, m: &Moment) -> (r: DbResult<()>)
        requires
            old(self).wf(),
        ensures
            final(self).wf(),
            (final(self).store@, error::outcome(r)) == flushed_from(old(self).store@, m@, 0),
            r is Ok ==> final(self).buffer_pool@ == (PoolModel {
                pages: old(self).buffer_pool@.pages.map_values(
                    |e: (Seq<char>, PageModel)| (e.0, bufferpool::marked(e.1, false)),
                ),
                ..old(self).buffer_pool@
            }),
            r is Err ==> final(self).buffer_pool@ == old(self).buffer_pool@,
            final(self).stats == old(self).stats,
            final(self).checkpoint_state == old(self).checkpoint_state,
    {
        let ghost whole = flushed_from(self.store@, m@, 0);
        let ghost start = *self;
        let mut i: usize = 0;
        while i < self.store.databases.len()
            invariant
                i <= self.store.databases@.len(),
                self.wf(),
                self.stats == start.stats,
                self.buffer_pool == start.buffer_pool,
                self.checkpoint_state == start.checkpoint_state,
                flushed_from(self.store@, m@, i as int) == whole,
            decreases self.store.databases@.len() - i,
        {
            let ghost before = self.store;
            assert(before@[i as int].1 == before.databases@[i as int].1@);
            let r = flush_database(&mut self.store.databases[i].1, m);
            proof {
                store_at(before, self.store, i as int);
            }
            match r {
                Err(e) => {
                    return Err(e);
                },
                Ok(_) => {},
            }
            i += 1;
        }
        assert(self.store@.len() == self.store.databases@.len());
        self.buffer_pool.flush_all();
        Ok(())
    }

    /// Drops the tables that sessions left behind. Returns how many.
    #[verifier::loop_isolation(false)]
    pub fn cleanup_stale_temporary_tables(&mut self) -> (r: (u64, DbResult<()>))
        requires
            old(self).wf(),
        ensures
            final(self).wf(),
            (final(self).store@, r.0, error::outcome(r.1)) == cleaned_from(old(self).store@, 0, 0),
            final(self).stats == old(self).stats,
            final(self).buffer_pool == old(self).buffer_pool,
            final(self).checkpoint_state == old(self).checkpoint_state,
    {
        let ghost whole = cleaned_from(self.store@, 0, 0);
        let ghost start = *self;
        let mut removed: u64 = 0;
        let mut i: usize = 0;
        while i < self.store.databases.len()
            invariant
                i <= self.store.databases@.len(),
                self.wf(),
                self.stats == start.stats,
                self.buffer_pool == start.buffer_pool,
                self.checkpoint_state == start.checkpoint_state,
                cleaned_from(self.store@, i as int, removed) == whole,
            decreases self.store.databases@.len() - i,
        {
            let ghost before = self.store;
            assert(before@[i as int].1 == before.databases@[i as int].1@);
            let r = clean_database(&mut self.store.databases[i].1, removed);
            proof {
                store_at(before, self.store, i as int);
            }
            match r.1 {
                Err(e) => {
                    return (r.0, Err(e));
                },
                Ok(_) => {
                    removed = r.0;
                },
            }
            i += 1;
        }
        assert(self.store@.len() == self.store.databases@.len());
        (removed, Ok(()))
    }

    pub fn stats(&self, uptime_seconds: u64) -> (r: StorageStatsSnapshot)
        ensures
            r.uptime_seconds == uptime_seconds,
            r.buffer_pool_pages == self.buffer_pool@.pages.len(),
            r.actor_queue_depth == self.stats.queue_depth,
            r.reads == self.stats.reads && r.writes == self.stats.writes && r.errors
                == self.stats.errors && r.group_commits == self.stats.group_commits
                && r.grouped_requests == self.stats.grouped_requests && r.checkpoints
                == self.stats.checkpoints && r.checkpoint_errors == self.stats.checkpoint_errors
                && r.prepare_validation_micros == self.stats.prepare_validation_micros
                && r.wal_sync_micros == self.stats.wal_sync_micros && r.apply_micros
                == self.stats.apply_micros && r.checkpoint_micros == self.stats.checkpoint_micros,
    {
        self.stats.snapshot(uptime_seconds, self.buffer_pool.page_count())
    }
}

/// The number of the last logged entry, given the number of the next.
pub fn current_lsn(next_lsn: u64) -> (r: u64)
    ensures
        r == if next_lsn == 0 {
            0
        } else {
            next_lsn - 1
        },
{
    next_lsn.saturating_sub(1)
}

} // verus!
