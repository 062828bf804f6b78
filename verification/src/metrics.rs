//! The metrics page, in Prometheus' text format.
use crate::agent::{AuditSnapshot, WireStatsSnapshot};
use crate::manager::StorageStatsSnapshot;
use crate::num;
use crate::text;
use vstd::prelude::*;

verus! {

/// A metric: its name, whether it is a counter, and its value. Others are gauges.
pub type Sample = (Seq<char>, bool, u64);

/// The two lines of a metric.
pub open spec fn sample_lines(name: Seq<char>, counter: bool, value: u64) -> Seq<char> {
    "# TYPE "@ + name + (if counter {
        " counter\n"@
    } else {
        " gauge\n"@
    }) + name + " "@ + num::decimal(value as nat) + "\n"@
}

/// The lines of the first `n` metrics.
pub open spec fn rendered(list: Seq<Sample>, n: int) -> Seq<char>
    decreases n,
{
    if n <= 0 || n > list.len() {
        Seq::empty()
    } else {
        rendered(list, n - 1) + sample_lines(list[n - 1].0, list[n - 1].1, list[n - 1].2)
    }
}

/// The metrics, in their order.
pub open spec fn samples(
    uptime: u64,
    w: WireStatsSnapshot,
    audit: AuditSnapshot,
    s: StorageStatsSnapshot,
) -> Seq<Sample> {
    seq![
        ("mydb_uptime_seconds"@, false, uptime),
        ("mydb_connections_active"@, false, w.active_connections as u64),
        ("mydb_connections_total"@, true, w.total_connections),
        ("mydb_queries_total"@, true, w.queries),
        ("mydb_query_errors_total"@, true, w.query_errors),
        ("mydb_query_execute_microseconds_total"@, true, w.query_execute_micros),
        ("mydb_query_response_microseconds_total"@, true, w.query_response_micros),
        ("mydb_audit_healthy"@, false, if audit.healthy { 1u64 } else { 0u64 }),
        ("mydb_audit_events_total"@, true, audit.accepted),
        ("mydb_audit_rejections_total"@, true, audit.rejected),
        ("mydb_lock_waits_total"@, true, w.lock_waits),
        ("mydb_lock_timeouts_total"@, true, w.lock_timeouts),
        ("mydb_deadlocks_total"@, true, w.deadlocks),
        ("mydb_row_lock_acquires_total"@, true, w.row_lock_acquires),
        ("mydb_table_lock_acquires_total"@, true, w.table_lock_acquires),
        ("mydb_transaction_locks_active"@, false, w.active_locks as u64),
        ("mydb_storage_reads_total"@, true, s.reads),
        ("mydb_storage_write_batches_total"@, true, s.writes),
        ("mydb_storage_errors_total"@, true, s.errors),
        ("mydb_write_actor_queue_depth"@, false, s.actor_queue_depth as u64),
        ("mydb_buffer_pool_pages"@, false, s.buffer_pool_pages as u64),
        ("mydb_group_commits_total"@, true, s.group_commits),
        ("mydb_grouped_requests_total"@, true, s.grouped_requests),
        ("mydb_checkpoints_total"@, true, s.checkpoints),
        ("mydb_checkpoint_errors_total"@, true, s.checkpoint_errors),
        ("mydb_prepare_validation_microseconds_total"@, true, s.prepare_validation_micros),
        ("mydb_wal_sync_microseconds_total"@, true, s.wal_sync_micros),
        ("mydb_apply_microseconds_total"@, true, s.apply_micros),
        ("mydb_checkpoint_microseconds_total"@, true, s.checkpoint_micros),
    ]
}

/// The whole page.
pub open spec fn page(
    uptime: u64,
    w: WireStatsSnapshot,
    audit: AuditSnapshot,
    s: StorageStatsSnapshot,
) -> Seq<char> {
    let list = samples(uptime, w, audit, s);
    "# HELP mydb_up Whether MyDB is running.\n"@ + "# TYPE mydb_up gauge\nmydb_up 1\n"@ + rendered(
        list,
        list.len() as int,
    )
}

fn put(
    out: &mut String,
    name: &str,
    counter: bool,
    value: u64,
    Ghost(list): Ghost<Seq<Sample>>,
    Ghost(n): Ghost<int>,
)
    requires
        0 <= n < list.len(),
        list[n] == (name@, counter, value),
        old(out)@ == rendered(list, n),
    ensures
        final(out)@ == rendered(list, n + 1),
{
    let ghost before = out@;
    out.append("# TYPE ");
    out.append(name);
    if counter {
        out.append(" counter\n");
    } else {
        out.append(" gauge\n");
    }
    out.append(name);
    out.append(" ");
    let text = num::u64_text(value);
    out.append(text.as_str());
    out.append("\n");
    assert(out@ =~= before + sample_lines(name@, counter, value));
}

pub fn metrics(
    uptime: u64,
    w: WireStatsSnapshot,
    audit: AuditSnapshot,
    s: StorageStatsSnapshot,
) -> (r: String)
    ensures
        r@ == page(uptime, w, audit, s),
{
    let ghost list = samples(uptime, w, audit, s);
    let mut out = text::copy_text("# HELP mydb_up Whether MyDB is running.\n");
    out.append("# TYPE mydb_up gauge\nmydb_up 1\n");
    let ghost start = out@;
    let mut body = String::new();
    assert(body@ =~= rendered(list, 0));
    put(&mut body, "mydb_uptime_seconds", false, uptime, Ghost(list), Ghost(0));
    put(&mut body, "mydb_connections_active", false, w.active_connections as u64, Ghost(list), Ghost(1));
    put(&mut body, "mydb_connections_total", true, w.total_connections, Ghost(list), Ghost(2));
    put(&mut body, "mydb_queries_total", true, w.queries, Ghost(list), Ghost(3));
    put(&mut body, "mydb_query_errors_total", true, w.query_errors, Ghost(list), Ghost(4));
    put(&mut body, "mydb_query_execute_microseconds_total", true, w.query_execute_micros, Ghost(list), Ghost(5));
    put(&mut body, "mydb_query_response_microseconds_total", true, w.query_response_micros, Ghost(list), Ghost(6));
    put(&mut body, "mydb_audit_healthy", false, if audit.healthy { 1u64 } else { 0u64 }, Ghost(list), Ghost(7));
    put(&mut body, "mydb_audit_events_total", true, audit.accepted, Ghost(list), Ghost(8));
    put(&mut body, "mydb_audit_rejections_total", true, audit.rejected, Ghost(list), Ghost(9));
    put(&mut body, "mydb_lock_waits_total", true, w.lock_waits, Ghost(list), Ghost(10));
    put(&mut body, "mydb_lock_timeouts_total", true, w.lock_timeouts, Ghost(list), Ghost(11));
    put(&mut body, "mydb_deadlocks_total", true, w.deadlocks, Ghost(list), Ghost(12));
    put(&mut body, "mydb_row_lock_acquires_total", true, w.row_lock_acquires, Ghost(list), Ghost(13));
    put(&mut body, "mydb_table_lock_acquires_total", true, w.table_lock_acquires, Ghost(list), Ghost(14));
    put(&mut body, "mydb_transaction_locks_active", false, w.active_locks as u64, Ghost(list), Ghost(15));
    put(&mut body, "mydb_storage_reads_total", true, s.reads, Ghost(list), Ghost(16));
    put(&mut body, "mydb_storage_write_batches_total", true, s.writes, Ghost(list), Ghost(17));
    put(&mut body, "mydb_storage_errors_total", true, s.errors, Ghost(list), Ghost(18));
    put(&mut body, "mydb_write_actor_queue_depth", false, s.actor_queue_depth as u64, Ghost(list), Ghost(19));
    put(&mut body, "mydb_buffer_pool_pages", false, s.buffer_pool_pages as u64, Ghost(list), Ghost(20));
    put(&mut body, "mydb_group_commits_total", true, s.group_commits, Ghost(list), Ghost(21));
    put(&mut body, "mydb_grouped_requests_total", true, s.grouped_requests, Ghost(list), Ghost(22));
    put(&mut body, "mydb_checkpoints_total", true, s.checkpoints, Ghost(list), Ghost(23));
    put(&mut body, "mydb_checkpoint_errors_total", true, s.checkpoint_errors, Ghost(list), Ghost(24));
    put(&mut body, "mydb_prepare_validation_microseconds_total", true, s.prepare_validation_micros, Ghost(list), Ghost(25));
    put(&mut body, "mydb_wal_sync_microseconds_total", true, s.wal_sync_micros, Ghost(list), Ghost(26));
    put(&mut body, "mydb_apply_microseconds_total", true, s.apply_micros, Ghost(list), Ghost(27));
    put(&mut body, "mydb_checkpoint_microseconds_total", true, s.checkpoint_micros, Ghost(list), Ghost(28));
    out.append(body.as_str());
    out
}

} // verus!
