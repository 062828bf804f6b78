//! What the router, the benchmark and the metrics page come to.
use crate::agent::{AuditSnapshot, WireStatsSnapshot};
use crate::bench;
use crate::manager::StorageStatsSnapshot;
use crate::metrics;
use crate::metrics::Sample;
use crate::num;
use crate::router;
use crate::router::BackendModel;
use crate::search;
use crate::text;
use vstd::prelude::*;

verus! {

// ---------------------------------------------------------------------------------------------
// Backends
// ---------------------------------------------------------------------------------------------
proof fn last_colon(s: Seq<char>, d: Seq<char>)
    requires
        forall|i: int| 0 <= i < d.len() ==> (#[trigger] d[i]) != ':',
    ensures
        search::rfind_char(s + ":"@ + d, ':') == Some(s.len() as int),
    decreases d.len(),
{
    reveal_strlit(":");
    assert(":"@ =~= seq![':']);
    let all = s + ":"@ + d;
    if d.len() > 0 {
        assert(all.last() == d.last());
        assert(all.drop_last() =~= s + ":"@ + d.drop_last());
        assert forall|i: int| 0 <= i < d.drop_last().len() implies (#[trigger] d.drop_last()[i])
            != ':' by {
            assert(d.drop_last()[i] == d[i]);
        }
        last_colon(s, d.drop_last());
    } else {
        assert(all.last() == ':');
    }
}

proof fn unbracketed_is(host: Seq<char>)
    requires
        host.len() > 0,
        host[0] != '[' && host[0] != ']' && host.last() != '[' && host.last() != ']',
    ensures
        router::unbracketed(host) == host,
        router::unbracketed("["@ + host + "]"@) == host,
{
    reveal_strlit("[");
    reveal_strlit("]");
    let p = router::bracket_fn();
    assert("["@ =~= seq!['[']);
    assert("]"@ =~= seq![']']);
    assert(text::trim_start_by(host, p) == host);
    let s = "["@ + host + "]"@;
    assert(s[0] == '[');
    let t = s.subrange(1, s.len() as int);
    assert(t =~= host + "]"@);
    assert(t[0] == host[0]);
    reveal_with_fuel(text::trim_start_by, 2);
    assert(text::trim_start_by(s, p) == t);
    assert(t.last() == ']');
    assert(t.drop_last() =~= host);
    reveal_with_fuel(text::trim_end_by, 2);
}

/// The address of a backend names it: reading it back gives its host and its port, whether the host
/// is a name or an address with colons.
pub proof fn an_address_names_its_backend(b: BackendModel)
    requires
        b.host.len() > 0,
        forall|i: int| 0 <= i < b.host.len() ==> (#[trigger] b.host[i]) != '[' && b.host[i] != ']',
    ensures
        router::backend_named(router::address(b)) == Ok::<BackendModel, Seq<char>>(
            BackendModel { host: b.host, port: b.port, weight: 1 },
        ),
{
    reveal_strlit("[");
    reveal_strlit(":");
    reveal_strlit("]");
    reveal_strlit("]:");
    assert("["@ =~= seq!['[']);
    assert("]:"@ =~= "]"@ + ":"@);
    let d = num::decimal(b.port as nat);
    num::decimal_digits(b.port as nat);
    num::parsed_decimal(b.port as nat, u16::MAX as nat);
    assert forall|i: int| 0 <= i < d.len() implies (#[trigger] d[i]) != ':' by {
        assert(text::is_digit(d[i]));
    }
    assert(b.host[0] != '[' && b.host[b.host.len() - 1] != '[');
    unbracketed_is(b.host);
    assert(!search::starts_with(b.host, "["@)) by {
        if search::starts_with(b.host, "["@) {
            assert(b.host.take(1)[0] == '[');
        }
    }
    let front = if search::has_char(b.host, ':') {
        "["@ + b.host + "]"@
    } else {
        b.host
    };
    let all = front + ":"@ + d;
    assert(router::address(b) =~= all);
    last_colon(front, d);
    assert(all.take(front.len() as int) =~= front);
    assert(all.skip(front.len() as int + 1) =~= d);
}

proof fn backends_mean(list: Seq<BackendModel>, at: int)
    requires
        0 <= at <= list.len(),
    ensures
        router::backends_fault(list, at) is None <==> forall|i: int|
            at <= i < list.len() ==> serves(#[trigger] list[i]),
    decreases list.len() - at,
{
    if at < list.len() {
        backends_mean(list, at + 1);
        if forall|i: int| at <= i < list.len() ==> serves(#[trigger] list[i]) {
            assert(serves(list[at]));
        }
    }
}

/// Whether a backend can be routed to: it has a host that is not blank, a port and a weight.
pub open spec fn serves(b: BackendModel) -> bool {
    text::trim(b.host).len() > 0 && b.port > 0 && b.weight > 0
}

/// Backends are accepted exactly where each of them can be routed to.
pub proof fn backends_are_accepted_where_all_serve(list: Seq<BackendModel>)
    ensures
        router::backends_fault(list, 0) is None <==> forall|i: int|
            0 <= i < list.len() ==> serves(#[trigger] list[i]),
{
    backends_mean(list, 0);
}

/// The first attempt goes to the backend of the slot, and each next one to the backend behind it.
pub proof fn attempts_go_round(list: Seq<BackendModel>, start: int, i: int)
    requires
        0 <= start < list.len(),
        0 <= i,
        i + 1 < list.len(),
    ensures
        router::attempts(list, start).len() == list.len(),
        router::attempts(list, start)[0] == start,
        router::attempts(list, start)[i] + 1 < list.len() ==> router::attempts(list, start)[i + 1]
            == router::attempts(list, start)[i] + 1,
        router::attempts(list, start)[i] + 1 == list.len() ==> router::attempts(list, start)[i + 1]
            == 0,
{
    let n = list.len() as int;
    vstd::arithmetic::div_mod::lemma_small_mod(start as nat, n as nat);
    let a = start + i;
    if a < n {
        vstd::arithmetic::div_mod::lemma_small_mod(a as nat, n as nat);
    } else {
        vstd::arithmetic::div_mod::lemma_small_mod((a - n) as nat, n as nat);
        vstd::arithmetic::div_mod::lemma_mod_sub_multiples_vanish(a, n);
    }
    let b = a + 1;
    if b < n {
        vstd::arithmetic::div_mod::lemma_small_mod(b as nat, n as nat);
    } else {
        vstd::arithmetic::div_mod::lemma_small_mod((b - n) as nat, n as nat);
        vstd::arithmetic::div_mod::lemma_mod_sub_multiples_vanish(b, n);
    }
}

// ---------------------------------------------------------------------------------------------
// Benchmarks
// ---------------------------------------------------------------------------------------------
/// The rank of a percentile is that part of the way from the first value to the last.
pub proof fn ranks_are_parts_of_the_way(n: int, percentile: int)
    requires
        n > 0,
        0 <= percentile <= 100,
    ensures
        100 * bench::rank(n, percentile) <= (n - 1) * percentile,
        (n - 1) * percentile < 100 * (bench::rank(n, percentile) + 1),
{
    let x = (n - 1) * percentile;
    assert(x >= 0) by (nonlinear_arith)
        requires
            n > 0,
            percentile >= 0,
            x == (n - 1) * percentile,
    ;
}

/// The rows of a batch follow each other; an upsert writes the same row over and over.
pub proof fn tuples_follow_each_other(
    actor: nat,
    start: int,
    end: int,
    literal: Seq<char>,
    upsert: bool,
    i: int,
)
    requires
        0 <= start <= i < end,
    ensures
        bench::batch_tuples(actor, start, end, literal, upsert).len() == end - start,
        bench::batch_tuples(actor, start, end, literal, upsert)[i - start] == "("@ + num::decimal(
            actor,
        ) + ","@ + num::decimal(
            if upsert {
                0
            } else {
                i as nat
            },
        ) + ","@ + literal + ")"@,
    decreases end - start,
{
    if i < end - 1 {
        tuples_follow_each_other(actor, start, end - 1, literal, upsert, i);
    } else {
        tuples_len(actor, start, end - 1, literal, upsert);
    }
}

proof fn tuples_len(actor: nat, start: int, end: int, literal: Seq<char>, upsert: bool)
    requires
        0 <= start <= end,
    ensures
        bench::batch_tuples(actor, start, end, literal, upsert).len() == end - start,
    decreases end - start,
{
    if start < end {
        tuples_len(actor, start, end - 1, literal, upsert);
    }
}

/// The tables of a run stand apart.
pub proof fn tables_of_a_run_stand_apart(a: nat, b: nat, count: nat)
    requires
        count > 1,
        bench::table_name(a, count) == bench::table_name(b, count),
    ensures
        a == b,
{
    num::decimal_digits(a);
    num::decimal_digits(b);
    let x = bench::table_name(a, count);
    let n = "game_events_"@.len() as int;
    assert(x.skip(n) =~= num::decimal(a));
    assert(bench::table_name(b, count).skip(n) =~= num::decimal(b));
}

// ---------------------------------------------------------------------------------------------
// Metrics
// ---------------------------------------------------------------------------------------------
/// The lines of a metric: its type, and its value.
pub open spec fn figure(name: Seq<char>, counter: bool, value: u64) -> Seq<char> {
    "# TYPE "@ + name + (if counter {
        " counter\n"@
    } else {
        " gauge\n"@
    }) + name + " "@ + num::decimal(value as nat) + "\n"@
}

/// Whether a page shows the value of a metric, and of which type it is.
pub open spec fn shows(page: Seq<char>, name: Seq<char>, counter: bool, value: u64) -> bool {
    exists|at: int| #[trigger] search::stands_at(page, figure(name, counter, value), at)
}

proof fn rendered_shows(head: Seq<char>, list: Seq<Sample>, n: int, i: int)
    requires
        0 <= i < n <= list.len(),
    ensures
        shows(head + metrics::rendered(list, n), list[i].0, list[i].1, list[i].2),
    decreases n,
{
    let lines = figure(list[i].0, list[i].1, list[i].2);
    let all = head + metrics::rendered(list, n);
    let front = head + metrics::rendered(list, n - 1);
    if i == n - 1 {
        let at = front.len() as int;
        assert(all =~= front + lines);
        assert(all.subrange(at, at + lines.len()) =~= lines);
        assert(search::stands_at(all, lines, at));
    } else {
        rendered_shows(head, list, n - 1, i);
        let at = choose|at: int| #[trigger] search::stands_at(front, lines, at);
        assert(all =~= front + metrics::sample_lines(
            list[n - 1].0,
            list[n - 1].1,
            list[n - 1].2,
        ));
        assert(all.subrange(at, at + lines.len()) =~= front.subrange(at, at + lines.len()));
        assert(search::stands_at(all, lines, at));
    }
}

/// The page shows every figure of the server under its name.
pub proof fn the_page_shows_every_figure(
    uptime: u64,
    w: WireStatsSnapshot,
    audit: AuditSnapshot,
    s: StorageStatsSnapshot,
)
    ensures
        ({
            let p = metrics::page(uptime, w, audit, s);
            &&& shows(p, "mydb_uptime_seconds"@, false, uptime)
            &&& shows(p, "mydb_connections_active"@, false, w.active_connections as u64)
            &&& shows(p, "mydb_connections_total"@, true, w.total_connections)
            &&& shows(p, "mydb_queries_total"@, true, w.queries)
            &&& shows(p, "mydb_query_errors_total"@, true, w.query_errors)
            &&& shows(p, "mydb_query_execute_microseconds_total"@, true, w.query_execute_micros)
            &&& shows(p, "mydb_query_response_microseconds_total"@, true, w.query_response_micros)
            &&& shows(p, "mydb_audit_healthy"@, false, if audit.healthy { 1u64 } else { 0u64 })
            &&& shows(p, "mydb_audit_events_total"@, true, audit.accepted)
            &&& shows(p, "mydb_audit_rejections_total"@, true, audit.rejected)
            &&& shows(p, "mydb_lock_waits_total"@, true, w.lock_waits)
            &&& shows(p, "mydb_lock_timeouts_total"@, true, w.lock_timeouts)
            &&& shows(p, "mydb_deadlocks_total"@, true, w.deadlocks)
            &&& shows(p, "mydb_row_lock_acquires_total"@, true, w.row_lock_acquires)
            &&& shows(p, "mydb_table_lock_acquires_total"@, true, w.table_lock_acquires)
            &&& shows(p, "mydb_transaction_locks_active"@, false, w.active_locks as u64)
            &&& shows(p, "mydb_storage_reads_total"@, true, s.reads)
            &&& shows(p, "mydb_storage_write_batches_total"@, true, s.writes)
            &&& shows(p, "mydb_storage_errors_total"@, true, s.errors)
            &&& shows(p, "mydb_write_actor_queue_depth"@, false, s.actor_queue_depth as u64)
            &&& shows(p, "mydb_buffer_pool_pages"@, false, s.buffer_pool_pages as u64)
            &&& shows(p, "mydb_group_commits_total"@, true, s.group_commits)
            &&& shows(p, "mydb_grouped_requests_total"@, true, s.grouped_requests)
            &&& shows(p, "mydb_checkpoints_total"@, true, s.checkpoints)
            &&& shows(p, "mydb_checkpoint_errors_total"@, true, s.checkpoint_errors)
            &&& shows(
                p,
                "mydb_prepare_validation_microseconds_total"@,
                true,
                s.prepare_validation_micros,
            )
            &&& shows(p, "mydb_wal_sync_microseconds_total"@, true, s.wal_sync_micros)
            &&& shows(p, "mydb_apply_microseconds_total"@, true, s.apply_micros)
            &&& shows(p, "mydb_checkpoint_microseconds_total"@, true, s.checkpoint_micros)
        }),
{
    let list = metrics::samples(uptime, w, audit, s);
    let head = "# HELP mydb_up Whether MyDB is running.\n"@ + "# TYPE mydb_up gauge\nmydb_up 1\n"@;
    let p = metrics::page(uptime, w, audit, s);
    assert forall|i: int| 0 <= i < list.len() implies #[trigger] shows(
        p,
        list[i].0,
        list[i].1,
        list[i].2,
    ) by {
        rendered_shows(head, list, list.len() as int, i);
    }
    assert(list.len() == 29);
    let it = |i: int| shows(p, list[i].0, list[i].1, list[i].2);
    assert(it(0) && it(1) && it(2) && it(3) && it(4) && it(5) && it(6) && it(7) && it(8) && it(9));
    assert(it(10) && it(11) && it(12) && it(13) && it(14) && it(15) && it(16) && it(17) && it(18)
        && it(19));
    assert(it(20) && it(21) && it(22) && it(23) && it(24) && it(25) && it(26) && it(27) && it(28));
}

} // verus!
