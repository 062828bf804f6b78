//! The diagnosis agent: what a question is about, and what the counters say to it.
use crate::manager::StorageStatsSnapshot;
use crate::num;
use crate::search;
use crate::text;
use vstd::prelude::*;

verus! {

/// What the protocol side of the server has counted.
#[derive(Debug, Clone, Copy, PartialEq, Eq, Structural)]
pub struct WireStatsSnapshot {
    pub active_connections: usize,
    pub total_connections: u64,
    pub queries: u64,
    pub query_errors: u64,
    pub query_execute_micros: u64,
    pub query_response_micros: u64,
    pub lock_waits: u64,
    pub lock_timeouts: u64,
    pub deadlocks: u64,
    pub row_lock_acquires: u64,
    pub table_lock_acquires: u64,
    pub active_locks: usize,
}

/// What the audit log has counted.
#[derive(Debug, Clone, Copy, PartialEq, Eq, Structural)]
pub struct AuditSnapshot {
    pub healthy: bool,
    pub accepted: u64,
    pub rejected: u64,
}

#[derive(Debug, Clone, Copy, PartialEq, Eq, Structural)]
pub enum AgentIntent {
    Health,
    SlowQueries,
    WriteLatency,
    Locks,
    Connections,
    Storage,
    Backup,
    SqlOptimization,
    Unknown,
}

impl AgentIntent {
    pub open spec fn name(self) -> Seq<char> {
        match self {
            AgentIntent::Health => "health"@,
            AgentIntent::SlowQueries => "slow_queries"@,
            AgentIntent::WriteLatency => "write_latency"@,
            AgentIntent::Locks => "locks"@,
            AgentIntent::Connections => "connections"@,
            AgentIntent::Storage => "storage"@,
            AgentIntent::Backup => "backup"@,
            AgentIntent::SqlOptimization => "sql_optimization"@,
            AgentIntent::Unknown => "unknown"@,
        }
    }

    pub fn as_str(self) -> (r: &'static str)
        ensures
            r@ == self.name(),
    {
        match self {
            AgentIntent::Health => "health",
            AgentIntent::SlowQueries => "slow_queries",
            AgentIntent::WriteLatency => "write_latency",
            AgentIntent::Locks => "locks",
            AgentIntent::Connections => "connections",
            AgentIntent::Storage => "storage",
            AgentIntent::Backup => "backup",
            AgentIntent::SqlOptimization => "sql_optimization",
            AgentIntent::Unknown => "unknown",
        }
    }

    pub open spec fn endpoint(self) -> Seq<char> {
        match self {
            AgentIntent::SlowQueries => "/api/v1/agent/slow-queries"@,
            AgentIntent::SqlOptimization => "/api/v1/agent/sql"@,
            AgentIntent::Connections => "/api/v1/connections"@,
            AgentIntent::Storage => "/api/v1/storage/inventory"@,
            AgentIntent::Backup => "/api/v1/backup/list"@,
            _ => "/api/v1/agent/health"@,
        }
    }

    pub fn recommended_endpoint(self) -> (r: &'static str)
        ensures
            r@ == self.endpoint(),
    {
        match self {
            AgentIntent::SlowQueries => "/api/v1/agent/slow-queries",
            AgentIntent::SqlOptimization => "/api/v1/agent/sql",
            AgentIntent::Connections => "/api/v1/connections",
            AgentIntent::Storage => "/api/v1/storage/inventory",
            AgentIntent::Backup => "/api/v1/backup/list",
            _ => "/api/v1/agent/health",
        }
    }
}

// ---------------------------------------------------------------------------------------------
// Questions
// ---------------------------------------------------------------------------------------------
pub open spec fn says(q: Seq<char>, keyword: Seq<char>) -> bool {
    search::contains_text(q, keyword)
}

/// What a question in lower case is about: the first topic that it mentions. An empty question
/// asks after the health of the server.
pub open spec fn intent_of(q: Seq<char>) -> AgentIntent {
    if q.len() == 0 {
        AgentIntent::Health
    } else if says(q, "backup"@) || says(q, "restore"@) || says(q, "备份"@) || says(q, "恢复"@) || says(q, "快照"@) {
        AgentIntent::Backup
    } else if says(q, "reconnect"@) || says(q, "connection"@) || says(q, "disconnect"@) || says(q, "连接"@) || says(q, "重连"@) || says(q, "断线"@) {
        AgentIntent::Connections
    } else if says(q, "deadlock"@) || says(q, "lock wait"@) || says(q, "lock timeout"@) || says(q, "锁"@) || says(q, "死锁"@) || says(q, "锁等待"@) {
        AgentIntent::Locks
    } else if says(q, "slow query"@) || says(q, "slow sql"@) || says(q, "query latency"@) || says(q, "慢查询"@) || says(q, "慢 sql"@) || says(q, "慢sql"@) || says(q, "查询慢"@) {
        AgentIntent::SlowQueries
    } else if says(q, "write"@) || says(q, "latency"@) || says(q, "wal"@) || says(q, "fsync"@) || says(q, "checkpoint"@) || says(q, "actor queue"@) || says(q, "写入"@) || says(q, "写慢"@) || says(q, "延迟"@) || says(q, "写队列"@) {
        AgentIntent::WriteLatency
    } else if says(q, "storage"@) || says(q, "disk"@) || says(q, "orphan"@) || says(q, "buffer pool"@) || says(q, "磁盘"@) || says(q, "存储"@) || says(q, "空间"@) || says(q, "孤儿"@) || says(q, "缓存池"@) {
        AgentIntent::Storage
    } else if says(q, "sql"@) || says(q, "index"@) || says(q, "query plan"@) || says(q, "索引"@) || says(q, "执行计划"@) || says(q, "优化查询"@) {
        AgentIntent::SqlOptimization
    } else if says(q, "health"@) || says(q, "status"@) || says(q, "problem"@) || says(q, "fault"@) || says(q, "健康"@) || says(q, "状态"@) || says(q, "问题"@) || says(q, "故障"@) {
        AgentIntent::Health
    } else {
        AgentIntent::Unknown
    }
}

/// What a question is about that is trimmed and in lower case.
pub fn classify_lowered(q: &str) -> (r: AgentIntent)
    ensures
        r == intent_of(q@),
{
    let c = text::chars_of(q);
    if c.len() == 0 {
        return AgentIntent::Health;
    }
    if search::text_contains(q, "backup") || search::text_contains(q, "restore") || search::text_contains(q, "备份") || search::text_contains(q, "恢复") || search::text_contains(q, "快照") {
        AgentIntent::Backup
    } else if search::text_contains(q, "reconnect") || search::text_contains(q, "connection") || search::text_contains(q, "disconnect") || search::text_contains(q, "连接") || search::text_contains(q, "重连") || search::text_contains(q, "断线") {
        AgentIntent::Connections
    } else if search::text_contains(q, "deadlock") || search::text_contains(q, "lock wait") || search::text_contains(q, "lock timeout") || search::text_contains(q, "锁") || search::text_contains(q, "死锁") || search::text_contains(q, "锁等待") {
        AgentIntent::Locks
    } else if search::text_contains(q, "slow query") || search::text_contains(q, "slow sql") || search::text_contains(q, "query latency") || search::text_contains(q, "慢查询") || search::text_contains(q, "慢 sql") || search::text_contains(q, "慢sql") || search::text_contains(q, "查询慢") {
        AgentIntent::SlowQueries
    } else if search::text_contains(q, "write") || search::text_contains(q, "latency") || search::text_contains(q, "wal") || search::text_contains(q, "fsync") || search::text_contains(q, "checkpoint") || search::text_contains(q, "actor queue") || search::text_contains(q, "写入") || search::text_contains(q, "写慢") || search::text_contains(q, "延迟") || search::text_contains(q, "写队列") {
        AgentIntent::WriteLatency
    } else if search::text_contains(q, "storage") || search::text_contains(q, "disk") || search::text_contains(q, "orphan") || search::text_contains(q, "buffer pool") || search::text_contains(q, "磁盘") || search::text_contains(q, "存储") || search::text_contains(q, "空间") || search::text_contains(q, "孤儿") || search::text_contains(q, "缓存池") {
        AgentIntent::Storage
    } else if search::text_contains(q, "sql") || search::text_contains(q, "index") || search::text_contains(q, "query plan") || search::text_contains(q, "索引") || search::text_contains(q, "执行计划") || search::text_contains(q, "优化查询") {
        AgentIntent::SqlOptimization
    } else if search::text_contains(q, "health") || search::text_contains(q, "status") || search::text_contains(q, "problem") || search::text_contains(q, "fault") || search::text_contains(q, "健康") || search::text_contains(q, "状态") || search::text_contains(q, "问题") || search::text_contains(q, "故障") {
        AgentIntent::Health
    } else {
        AgentIntent::Unknown
    }
}

pub fn classify_agent_question(question: &str) -> (r: AgentIntent)
    ensures
        r == intent_of(text::lowercase(text::trim(question@))),
{
    let t = text::trim_text(question);
    let q = text::lower_text(t.as_str());
    classify_lowered(q.as_str())
}

// ---------------------------------------------------------------------------------------------
// Advice
// ---------------------------------------------------------------------------------------------
pub open spec fn pushed_if(list: Seq<Seq<char>>, yes: bool, s: Seq<char>) -> Seq<Seq<char>> {
    if yes {
        list.push(s)
    } else {
        list
    }
}

/// What the counters give reason to look at, the most pressing first.
pub open spec fn advice(
    query_errors: u64,
    storage_errors: u64,
    queue_depth: usize,
    lock_timeouts: u64,
) -> Seq<Seq<char>> {
    let a = pushed_if(
        Seq::empty(),
        storage_errors > 0,
        "storage errors detected: inspect server log and disk health"@,
    );
    let b = pushed_if(
        a,
        queue_depth > 256,
        "write actor queue elevated: batch game-state writes and reduce transaction size"@,
    );
    let c = pushed_if(
        b,
        query_errors > 0,
        "SQL errors detected: inspect /api/v1/agent/slow-queries"@,
    );
    let d = pushed_if(
        c,
        lock_timeouts > 0,
        "lock wait timeouts detected: inspect transaction scope and keep actor writes keyed by primary key"@,
    );
    pushed_if(d, d.len() == 0, "no active fault detected"@)
}

fn push_if(list: &mut Vec<String>, yes: bool, s: &str)
    ensures
        final(list).deep_view() == pushed_if(old(list).deep_view(), yes, s@),
{
    if yes {
        let ghost before = list.deep_view();
        list.push(text::copy_text(s));
        assert(list.deep_view() =~= before.push(s@));
    }
}

pub fn diagnose_advice(
    query_errors: u64,
    storage_errors: u64,
    queue_depth: usize,
    lock_timeouts: u64,
) -> (r: Vec<String>)
    ensures
        r.deep_view() == advice(query_errors, storage_errors, queue_depth, lock_timeouts),
{
    let mut list: Vec<String> = Vec::new();
    assert(list.deep_view() =~= Seq::empty());
    push_if(
        &mut list,
        storage_errors > 0,
        "storage errors detected: inspect server log and disk health",
    );
    push_if(
        &mut list,
        queue_depth > 256,
        "write actor queue elevated: batch game-state writes and reduce transaction size",
    );
    push_if(
        &mut list,
        query_errors > 0,
        "SQL errors detected: inspect /api/v1/agent/slow-queries",
    );
    push_if(
        &mut list,
        lock_timeouts > 0,
        "lock wait timeouts detected: inspect transaction scope and keep actor writes keyed by primary key",
    );
    assert(list.deep_view().len() == list@.len());
    let none = list.len() == 0;
    push_if(&mut list, none, "no active fault detected");
    list
}

/// The phase that took longest; of phases that took as long the last.
pub open spec fn dominant_phase(prepare: u64, sync: u64, apply: u64, checkpoint: u64) -> Seq<char> {
    if checkpoint >= prepare && checkpoint >= sync && checkpoint >= apply {
        "checkpoint"@
    } else if apply >= prepare && apply >= sync {
        "apply"@
    } else if sync >= prepare {
        "WAL fsync"@
    } else {
        "prepare/validation"@
    }
}

fn dominant(prepare: u64, sync: u64, apply: u64, checkpoint: u64) -> (r: &'static str)
    ensures
        r@ == dominant_phase(prepare, sync, apply, checkpoint),
{
    if checkpoint >= prepare && checkpoint >= sync && checkpoint >= apply {
        "checkpoint"
    } else if apply >= prepare && apply >= sync {
        "apply"
    } else if sync >= prepare {
        "WAL fsync"
    } else {
        "prepare/validation"
    }
}

pub open spec fn n(x: u64) -> Seq<char> {
    num::decimal(x as nat)
}

pub open spec fn m(x: usize) -> Seq<char> {
    num::decimal(x as nat)
}

pub open spec fn latency_answer(s: StorageStatsSnapshot) -> Seq<char> {
    let g = s.group_commits;
    if g == 0 {
        "no committed write group is available yet; run the workload and ask again"@
    } else {
        n(g) + " write groups, queue depth "@ + m(s.actor_queue_depth)
            + ", average prepare/WAL/apply/checkpoint = "@ + n(s.prepare_validation_micros / g)
            + "/"@ + n(s.wal_sync_micros / g) + "/"@ + n(s.apply_micros / g) + "/"@ + n(
            s.checkpoint_micros / g,
        ) + " us per group; dominant phase: "@ + dominant_phase(
            s.prepare_validation_micros,
            s.wal_sync_micros,
            s.apply_micros,
            s.checkpoint_micros,
        )
    }
}

/// The answer to a question.
pub open spec fn answer(
    intent: AgentIntent,
    w: WireStatsSnapshot,
    s: StorageStatsSnapshot,
    slow_query_count: usize,
    latest_slow_ms: Option<u64>,
) -> Seq<char> {
    match intent {
        AgentIntent::Health => search::joined(
            advice(w.query_errors, s.errors, s.actor_queue_depth, w.lock_timeouts),
            "; "@,
        ),
        AgentIntent::SlowQueries => match latest_slow_ms {
            Some(d) => "captured "@ + m(slow_query_count)
                + " slow/error queries; latest duration is "@ + n(d) + " ms"@,
            None => "no slow or failed query has been captured"@,
        },
        AgentIntent::WriteLatency => latency_answer(s),
        AgentIntent::Locks => m(w.active_locks) + " active transaction locks, "@ + n(w.lock_waits)
            + " waits, "@ + n(w.lock_timeouts) + " timeouts, "@ + n(w.deadlocks)
            + " deadlocks; keep actor transactions short and keyed by primary/unique key"@,
        AgentIntent::Connections => m(w.active_connections) + " active connections, "@ + n(
            w.total_connections,
        )
            + " accepted connections total; disconnects roll back transactional writes and a reconnect starts a clean session"@,
        AgentIntent::Storage => m(s.buffer_pool_pages) + " buffer-pool pages, "@ + n(s.errors)
            + " storage errors, "@ + n(s.checkpoint_errors)
            + " checkpoint errors; inspect storage inventory before any orphan cleanup"@,
        AgentIntent::Backup => "full, native LSN-incremental chains, and RFC3339 point-in-time recovery are available over Agent HTTP; restore is staged and installed before storage opens on restart"@,
        AgentIntent::SqlOptimization => "submit the exact SQL to /api/v1/agent/sql for read-only static analysis"@,
        AgentIntent::Unknown => "question not recognized; ask about health, slow SQL, write latency, locks, connections, storage, backup, or SQL optimization"@,
    }
}

fn add_number(out: &mut String, x: u64)
    ensures
        final(out)@ == old(out)@ + n(x),
{
    let s = num::u64_text(x);
    out.append(s.as_str());
}

fn add_size(out: &mut String, x: usize)
    ensures
        final(out)@ == old(out)@ + m(x),
{
    let s = num::usize_text(x);
    out.append(s.as_str());
}

fn answer_latency(s: StorageStatsSnapshot) -> (r: String)
    ensures
        r@ == latency_answer(s),
{
    let g: u64 = s.group_commits;
    if g == 0 {
        return text::copy_text(
            "no committed write group is available yet; run the workload and ask again",
        );
    }
    let mut out = num::u64_text(g);
    out.append(" write groups, queue depth ");
    add_size(&mut out, s.actor_queue_depth);
    out.append(", average prepare/WAL/apply/checkpoint = ");
    add_number(&mut out, s.prepare_validation_micros / g);
    out.append("/");
    add_number(&mut out, s.wal_sync_micros / g);
    out.append("/");
    add_number(&mut out, s.apply_micros / g);
    out.append("/");
    add_number(&mut out, s.checkpoint_micros / g);
    out.append(" us per group; dominant phase: ");
    out.append(
        dominant(
            s.prepare_validation_micros,
            s.wal_sync_micros,
            s.apply_micros,
            s.checkpoint_micros,
        ),
    );
    out
}

pub fn answer_agent_question(
    intent: AgentIntent,
    w: WireStatsSnapshot,
    s: StorageStatsSnapshot,
    slow_query_count: usize,
    latest_slow_ms: Option<u64>,
) -> (r: String)
    ensures
        r@ == answer(intent, w, s, slow_query_count, latest_slow_ms),
{
    match intent {
        AgentIntent::Health => {
            let list = diagnose_advice(
                w.query_errors,
                s.errors,
                s.actor_queue_depth,
                w.lock_timeouts,
            );
            let parts = list.as_slice();
            assert(parts.deep_view() =~= list.deep_view());
            search::join(parts, "; ")
        },
        AgentIntent::SlowQueries => match latest_slow_ms {
            Some(d) => {
                let mut out = text::copy_text("captured ");
                add_size(&mut out, slow_query_count);
                out.append(" slow/error queries; latest duration is ");
                add_number(&mut out, d);
                out.append(" ms");
                out
            },
            None => text::copy_text("no slow or failed query has been captured"),
        },
        AgentIntent::WriteLatency => answer_latency(s),
        AgentIntent::Locks => {
            let mut out = num::usize_text(w.active_locks);
            out.append(" active transaction locks, ");
            add_number(&mut out, w.lock_waits);
            out.append(" waits, ");
            add_number(&mut out, w.lock_timeouts);
            out.append(" timeouts, ");
            add_number(&mut out, w.deadlocks);
            out.append(" deadlocks; keep actor transactions short and keyed by primary/unique key");
            out
        },
        AgentIntent::Connections => {
            let mut out = num::usize_text(w.active_connections);
            out.append(" active connections, ");
            add_number(&mut out, w.total_connections);
            out.append(
                " accepted connections total; disconnects roll back transactional writes and a reconnect starts a clean session",
            );
            out
        },
        AgentIntent::Storage => {
            let mut out = num::usize_text(s.buffer_pool_pages);
            out.append(" buffer-pool pages, ");
            add_number(&mut out, s.errors);
            out.append(" storage errors, ");
            add_number(&mut out, s.checkpoint_errors);
            out.append(" checkpoint errors; inspect storage inventory before any orphan cleanup");
            out
        },
        AgentIntent::Backup => text::copy_text(
            "full, native LSN-incremental chains, and RFC3339 point-in-time recovery are available over Agent HTTP; restore is staged and installed before storage opens on restart",
        ),
        AgentIntent::SqlOptimization => text::copy_text(
            "submit the exact SQL to /api/v1/agent/sql for read-only static analysis",
        ),
        AgentIntent::Unknown => text::copy_text(
            "question not recognized; ask about health, slow SQL, write latency, locks, connections, storage, backup, or SQL optimization",
        ),
    }
}

/// Whether the server is well: nothing has failed, and writes do not pile up.
pub fn is_healthy(audit: AuditSnapshot, s: StorageStatsSnapshot) -> (r: bool)
    ensures
        r == (audit.healthy && s.errors == 0 && s.checkpoint_errors == 0 && s.actor_queue_depth
            < 1024),
{
    audit.healthy && s.errors == 0 && s.checkpoint_errors == 0 && s.actor_queue_depth < 1024
}

// ---------------------------------------------------------------------------------------------
// Statements
// ---------------------------------------------------------------------------------------------
/// A statement as the agent looks at it.
pub open spec fn looked_at(sql: Seq<char>) -> Seq<char> {
    text::upper(text::trim(sql))
}

/// The kind of a statement: its first word.
pub open spec fn statement_kind(sql: Seq<char>) -> Seq<char> {
    let words = search::words(looked_at(sql));
    if words.len() > 0 {
        words[0]
    } else {
        "UNKNOWN"@
    }
}

/// What a statement's text gives reason to change.
pub open spec fn sql_advice(sql: Seq<char>) -> Seq<Seq<char>> {
    let u = looked_at(sql);
    let a = pushed_if(
        Seq::empty(),
        search::starts_with(u, "SELECT"@) && !says(u, " WHERE "@) && says(u, " FROM "@),
        "full table scan: add selective WHERE predicate or index"@,
    );
    let b = pushed_if(
        a,
        says(u, "ORDER BY"@) && !says(u, "LIMIT"@),
        "unbounded sort: add LIMIT for game-facing request paths"@,
    );
    let c = pushed_if(
        b,
        (search::starts_with(u, "UPDATE"@) || search::starts_with(u, "DELETE"@)) && !says(
            u,
            " WHERE "@,
        ),
        "whole-table mutation: add WHERE predicate"@,
    );
    pushed_if(
        c,
        c.len() == 0,
        "no obvious static issue; inspect slow-query duration and actor queue depth"@,
    )
}

/// What a statement is, and what its text gives reason to change.
pub fn debug_sql(sql: &str) -> (r: (String, Vec<String>))
    ensures
        r.0@ == statement_kind(sql@),
        r.1.deep_view() == sql_advice(sql@),
{
    let t = text::trim_text(sql);
    let upper = text::to_upper(t.as_str());
    let u = upper.as_str();
    let words = search::split_words(u);
    assert(words.deep_view().len() == words@.len());
    let kind = if words.len() > 0 {
        assert(words.deep_view()[0] == words@[0]@);
        text::copy_text(words[0].as_str())
    } else {
        text::copy_text("UNKNOWN")
    };
    let mut list: Vec<String> = Vec::new();
    assert(list.deep_view() =~= Seq::empty());
    let filtered = search::text_contains(u, " WHERE ");
    let scan = search::text_starts_with(u, "SELECT") && !filtered && search::text_contains(
        u,
        " FROM ",
    );
    push_if(&mut list, scan, "full table scan: add selective WHERE predicate or index");
    let sort = search::text_contains(u, "ORDER BY") && !search::text_contains(u, "LIMIT");
    push_if(&mut list, sort, "unbounded sort: add LIMIT for game-facing request paths");
    let whole = (search::text_starts_with(u, "UPDATE") || search::text_starts_with(u, "DELETE"))
        && !filtered;
    push_if(&mut list, whole, "whole-table mutation: add WHERE predicate");
    assert(list.deep_view().len() == list@.len());
    let none = list.len() == 0;
    push_if(
        &mut list,
        none,
        "no obvious static issue; inspect slow-query duration and actor queue depth",
    );
    (kind, list)
}

/// There is always something to say.
pub proof fn advice_is_never_empty(
    query_errors: u64,
    storage_errors: u64,
    queue_depth: usize,
    lock_timeouts: u64,
    sql: Seq<char>,
)
    ensures
        advice(query_errors, storage_errors, queue_depth, lock_timeouts).len() > 0,
        sql_advice(sql).len() > 0,
{
}

} // verus!
