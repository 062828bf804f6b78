//! The benchmark's arithmetic: tables, batches, statements and percentiles.
use crate::cells;
use crate::error;
use crate::error::{DbError, DbResult};
use crate::num;
use crate::search;
use crate::text;
use vstd::prelude::*;
use vstd::relations::{sorted_by, total_ordering};
use vstd::seq_lib::{lemma_sorted_unique, to_multiset_insert};

verus! {

#[derive(Debug, Clone, Copy, PartialEq, Eq, Structural)]
pub enum WriteMode {
    Transaction,
    ActorBatch,
    TransactionUpsert,
    ActorBatchUpsert,
}

pub open spec fn upserts(mode: WriteMode) -> bool {
    mode == WriteMode::TransactionUpsert || mode == WriteMode::ActorBatchUpsert
}

pub fn check_sizes(actors: usize, table_count: usize, transaction_size: usize) -> (r: DbResult<()>)
    ensures
        error::outcome(r) == if actors == 0 {
            Err::<(), Seq<char>>("actors must be greater than zero"@)
        } else if table_count == 0 {
            Err("table-count must be greater than zero"@)
        } else if transaction_size == 0 {
            Err("transaction-size must be greater than zero"@)
        } else {
            Ok(())
        },
{
    if actors == 0 {
        Err(DbError::of("actors must be greater than zero"))
    } else if table_count == 0 {
        Err(DbError::of("table-count must be greater than zero"))
    } else if transaction_size == 0 {
        Err(DbError::of("transaction-size must be greater than zero"))
    } else {
        Ok(())
    }
}

pub open spec fn table_name(index: nat, table_count: nat) -> Seq<char> {
    if table_count == 1 {
        "game_events"@
    } else {
        "game_events_"@ + num::decimal(index)
    }
}

pub fn benchmark_table_name(index: usize, table_count: usize) -> (r: String)
    ensures
        r@ == table_name(index as nat, table_count as nat),
{
    if table_count == 1 {
        text::copy_text("game_events")
    } else {
        let n = num::usize_text(index);
        error::cat2("game_events_", n.as_str())
    }
}

/// The name of the database that a run uses.
pub fn database_name(process: u32, millis: u128) -> (r: String)
    ensures
        r@ == "mydb_game_bench_"@ + num::decimal(process as nat) + "_"@ + num::decimal(millis as nat),
{
    let p = num::u64_text(process as u64);
    let m = num::u128_text(millis);
    error::cat4("mydb_game_bench_", p.as_str(), "_", m.as_str())
}

/// Only a database that a run has made may be dropped.
pub fn check_cleanup(database: &str) -> (r: DbResult<()>)
    ensures
        error::outcome(r) == if search::starts_with(database@, "mydb_game_bench_"@) {
            Ok::<(), Seq<char>>(())
        } else {
            Err("refusing to drop non-benchmark database"@)
        },
{
    if search::text_starts_with(database, "mydb_game_bench_") {
        Ok(())
    } else {
        Err(DbError::of("refusing to drop non-benchmark database"))
    }
}

// ---------------------------------------------------------------------------------------------
// Batches
// ---------------------------------------------------------------------------------------------
/// One transaction of an actor: its first write, the end of its writes, and whether the actor
/// connects anew before it.
#[derive(Debug, Clone, Copy, PartialEq, Eq, Structural)]
pub struct Batch {
    pub start: usize,
    pub end: usize,
    pub reconnect: bool,
}

pub open spec fn batch_at(index: int, writes: int, size: int, reconnect_every: int) -> Batch {
    let end = (index + 1) * size;
    Batch {
        start: (index * size) as usize,
        end: (if end < writes {
            end
        } else {
            writes
        }) as usize,
        reconnect: reconnect_every > 0 && index > 0 && index % reconnect_every == 0,
    }
}

/// How many transactions it takes to make a number of writes.
pub open spec fn batch_count(writes: int, size: int) -> int {
    (writes + size - 1) / size
}

/// The transactions of an actor.
pub fn plan_batches(writes: usize, size: usize, reconnect_every: usize) -> (r: Vec<Batch>)
    requires
        size > 0,
    ensures
        r@.len() == batch_count(writes as int, size as int),
        forall|i: int|
            0 <= i < r@.len() ==> #[trigger] r@[i] == batch_at(
                i,
                writes as int,
                size as int,
                reconnect_every as int,
            ),
{
    let mut out: Vec<Batch> = Vec::new();
    let mut start: usize = 0;
    let mut index: usize = 0;
    assert(0 * size as int == 0) by (nonlinear_arith);
    while start < writes
        invariant
            size > 0,
            start <= writes,
            start == index * size || (start == writes && index * size >= writes),
            index > 0 ==> (index - 1) * size < writes,
            index <= start,
            out@.len() == index,
            forall|i: int|
                0 <= i < out@.len() ==> #[trigger] out@[i] == batch_at(
                    i,
                    writes as int,
                    size as int,
                    reconnect_every as int,
                ),
        decreases writes - start,
    {
        let end: usize = if writes - start < size {
            writes
        } else {
            start + size
        };
        let reconnect = reconnect_every > 0 && index > 0 && index % reconnect_every == 0;
        assert((index + 1) * size == index * size + size) by (nonlinear_arith);
        out.push(Batch { start: start, end: end, reconnect: reconnect });
        assert(out@[index as int] == batch_at(
            index as int,
            writes as int,
            size as int,
            reconnect_every as int,
        ));
        start = end;
        index += 1;
    }
    proof {
        let k = index as int;
        let w = writes as int;
        let s = size as int;
        if k > 0 {
            assert((k - 1) * s < w && w <= k * s);
            assert((w + s - 1) / s == k) by (nonlinear_arith)
                requires
                    s > 0,
                    (k - 1) * s < w,
                    w <= k * s,
            ;
        } else {
            assert(0 * s == 0) by (nonlinear_arith);
            assert((w + s - 1) / s == 0) by (nonlinear_arith)
                requires
                    s > 0,
                    w == 0,
            ;
        }
    }
    out
}

/// How many rows a run leaves behind: an upsert writes one row for each actor.
pub fn expected_rows(mode: WriteMode, actors: usize, writes_per_actor: usize) -> (r: u64)
    requires
        actors * writes_per_actor <= usize::MAX,
    ensures
        r == if upserts(mode) {
            actors as int
        } else {
            actors * writes_per_actor
        },
{
    match mode {
        WriteMode::TransactionUpsert | WriteMode::ActorBatchUpsert => actors as u64,
        _ => (actors * writes_per_actor) as u64,
    }
}

pub fn check_rows(expected: u64, found: u64) -> (r: DbResult<()>)
    ensures
        error::outcome(r) == if expected == found {
            Ok::<(), Seq<char>>(())
        } else {
            Err(
                "row verification failed: expected "@ + num::decimal(expected as nat) + ", got "@ + num::decimal(
                    found as nat,
                ),
            )
        },
{
    if expected == found {
        Ok(())
    } else {
        let e = num::u64_text(expected);
        let f = num::u64_text(found);
        Err(
            DbError::new(
                error::cat4("row verification failed: expected ", e.as_str(), ", got ", f.as_str()),
            ),
        )
    }
}

// ---------------------------------------------------------------------------------------------
// Statements
// ---------------------------------------------------------------------------------------------
pub fn hex_literal(value: &[u8]) -> (r: String)
    ensures
        r@ == cells::hex_quoted(value@, true),
{
    cells::quote_hex(value, true)
}

/// The bytes that an actor writes.
pub fn payload(actor: usize, bytes: usize) -> (r: Vec<u8>)
    ensures
        r@ == Seq::new(bytes as nat, |i: int| (actor as int % 251) as u8),
{
    let fill: u8 = (actor % 251) as u8;
    let mut out: Vec<u8> = Vec::new();
    let mut i: usize = 0;
    while i < bytes
        invariant
            i <= bytes,
            fill == actor as int % 251,
            out@ == Seq::new(i as nat, |j: int| (actor as int % 251) as u8),
        decreases bytes - i,
    {
        out.push(fill);
        i += 1;
        assert(out@ =~= Seq::new(i as nat, |j: int| (actor as int % 251) as u8));
    }
    out
}

/// The rows of a batch as SQL: writes are numbered, upserts all go to the same row.
pub open spec fn batch_tuples(actor: nat, start: int, end: int, literal: Seq<char>, upsert: bool) -> Seq<Seq<char>>
    decreases end - start,
{
    if start >= end {
        Seq::empty()
    } else {
        batch_tuples(actor, start, end - 1, literal, upsert).push(
            "("@ + num::decimal(actor) + ","@ + num::decimal(
                if upsert {
                    0
                } else {
                    (end - 1) as nat
                },
            ) + ","@ + literal + ")"@,
        )
    }
}

pub open spec fn batch_insert(
    table: Seq<char>,
    actor: nat,
    start: int,
    end: int,
    literal: Seq<char>,
    upsert: bool,
) -> Seq<char> {
    let base = "INSERT INTO `"@ + table + "`(actor_id,seq,payload) VALUES "@ + search::joined(
        batch_tuples(actor, start, end, literal, upsert),
        ","@,
    );
    if upsert {
        base + " ON DUPLICATE KEY UPDATE payload=VALUES(payload)"@
    } else {
        base
    }
}

/// The statement that writes a batch at once.
pub fn batch_sql(table: &str, actor: usize, start: usize, end: usize, literal: &str, upsert: bool) -> (r: String)
    requires
        start <= end,
    ensures
        r@ == batch_insert(table@, actor as nat, start as int, end as int, literal@, upsert),
{
    let who = num::usize_text(actor);
    let mut tuples: Vec<String> = Vec::new();
    let mut i: usize = start;
    assert(tuples.deep_view() =~= Seq::empty());
    while i < end
        invariant
            start <= i <= end,
            who@ == num::decimal(actor as nat),
            tuples.deep_view() == batch_tuples(actor as nat, start as int, i as int, literal@, upsert),
        decreases end - i,
    {
        let ghost before = tuples.deep_view();
        let number = num::usize_text(
            if upsert {
                0
            } else {
                i
            },
        );
        let t = error::cat7("(", who.as_str(), ",", number.as_str(), ",", literal, ")");
        let ghost tuple = t@;
        tuples.push(t);
        assert(tuples.deep_view() =~= before.push(tuple));
        i += 1;
    }
    let parts = tuples.as_slice();
    assert(parts.deep_view() =~= tuples.deep_view());
    let values = search::join(parts, ",");
    let mut s = error::cat4("INSERT INTO `", table, "`(actor_id,seq,payload) VALUES ", values.as_str());
    if upsert {
        s.append(" ON DUPLICATE KEY UPDATE payload=VALUES(payload)");
    }
    s
}

/// The statement that writes one row, with its values left open.
pub fn row_sql(table: &str, upsert: bool) -> (r: String)
    ensures
        r@ == if upsert {
            "INSERT INTO `"@ + table@ + "`(actor_id,seq,payload) VALUES (?,?,?)"@
                + " ON DUPLICATE KEY UPDATE payload=VALUES(payload)"@
        } else {
            "INSERT INTO `"@ + table@ + "`(actor_id,seq,payload) VALUES (?,?,?)"@
        },
{
    let mut s = error::cat3("INSERT INTO `", table, "`(actor_id,seq,payload) VALUES (?,?,?)");
    if upsert {
        s.append(" ON DUPLICATE KEY UPDATE payload=VALUES(payload)");
    }
    s
}

pub fn read_sql(table: &str) -> (r: String)
    ensures
        r@ == "SELECT payload FROM `"@ + table@ + "` WHERE actor_id=? LIMIT 1"@,
{
    error::cat3("SELECT payload FROM `", table, "` WHERE actor_id=? LIMIT 1")
}

pub fn create_sql(table: &str) -> (r: String)
    ensures
        r@ == "CREATE TABLE `"@ + table@
            + "`(actor_id BIGINT NOT NULL,seq BIGINT NOT NULL,payload BLOB NOT NULL,PRIMARY KEY(actor_id,seq)) ENGINE=InnoDB"@,
{
    error::cat3(
        "CREATE TABLE `",
        table,
        "`(actor_id BIGINT NOT NULL,seq BIGINT NOT NULL,payload BLOB NOT NULL,PRIMARY KEY(actor_id,seq)) ENGINE=InnoDB",
    )
}

// ---------------------------------------------------------------------------------------------
// Percentiles
// ---------------------------------------------------------------------------------------------
pub open spec fn up_to() -> spec_fn(u128, u128) -> bool {
    |a: u128, b: u128| a <= b
}

pub open spec fn ascending(values: Seq<u128>) -> Seq<u128> {
    values.sort_by(up_to())
}

/// Which of `n` values in order stands for a percentile.
pub open spec fn rank(n: int, percentile: int) -> int {
    ((n - 1) * percentile) / 100
}

/// The value below which a percentage of the values lies; of no values it is zero.
pub open spec fn percentile_of(values: Seq<u128>, percentile: int) -> u128 {
    if values.len() == 0 {
        0
    } else {
        ascending(values)[rank(values.len() as int, percentile)]
    }
}

fn insert_value(list: &mut Vec<u128>, x: u128)
    requires
        sorted_by(old(list)@, up_to()),
    ensures
        sorted_by(final(list)@, up_to()),
        final(list)@.to_multiset() == old(list)@.to_multiset().insert(x),
{
    let ghost before = list@;
    let ghost leq = up_to();
    let mut p: usize = 0;
    while p < list.len() && list[p] <= x
        invariant
            p <= list@.len(),
            before == list@,
            forall|i: int| 0 <= i < p ==> #[trigger] before[i] <= x,
        decreases list@.len() - p,
    {
        p += 1;
    }
    list.insert(p, x);
    let ghost after = list@;
    proof {
        assert(after =~= before.insert(p as int, x));
        assert forall|i: int, j: int| 0 <= i < j < after.len() implies #[trigger] leq(after[i], after[j]) by {
            if j < p {
                assert(leq(before[i], before[j]));
            } else if j == p {
                assert(before[i] <= x);
            } else if i < p {
                assert(leq(before[i], before[j - 1]));
            } else if i > p {
                assert(leq(before[i - 1], before[j - 1]));
            } else if j - 1 > p {
                assert(leq(before[p as int], before[j - 1]));
            }
        }
        to_multiset_insert(before, p as int, x);
    }
}

/// A percentile of latencies in microseconds.
pub fn percentile_us(values: &Vec<u128>, percentile: usize) -> (r: u128)
    requires
        values@.len() > 0 ==> (values@.len() - 1) * percentile <= usize::MAX,
        values@.len() > 0 ==> rank(values@.len() as int, percentile as int) < values@.len(),
    ensures
        r == percentile_of(values@, percentile as int),
{
    if values.len() == 0 {
        return 0;
    }
    let mut list: Vec<u128> = Vec::new();
    let mut i: usize = 0;
    assert(values@.take(0) =~= list@);
    while i < values.len()
        invariant
            i <= values@.len(),
            sorted_by(list@, up_to()),
            list@.to_multiset() =~= values@.take(i as int).to_multiset(),
        decreases values@.len() - i,
    {
        insert_value(&mut list, values[i]);
        proof {
            assert(values@.take(i + 1) =~= values@.take(i as int).push(values@[i as int]));
            values@.take(i as int).to_multiset_ensures();
        }
        i += 1;
    }
    let n: usize = values.len();
    proof {
        assert(values@.take(i as int) =~= values@);
        assert(total_ordering(up_to()));
        values@.lemma_sort_by_ensures(up_to());
        lemma_sorted_unique(list@, ascending(values@), up_to());
        list@.to_multiset_ensures();
        values@.to_multiset_ensures();
        assert(0 <= (n - 1) * percentile) by (nonlinear_arith)
            requires
                n > 0,
        ;
    }
    let index: usize = ((n - 1) * percentile) / 100;
    list[index]
}

// ---------------------------------------------------------------------------------------------
// Laws
// ---------------------------------------------------------------------------------------------
proof fn rank_bounds(n: int, percentile: int)
    requires
        n > 0,
        0 <= percentile <= 100,
    ensures
        0 <= rank(n, percentile) < n,
{
    assert(0 <= (n - 1) * percentile <= (n - 1) * 100) by (nonlinear_arith)
        requires
            n > 0,
            0 <= percentile <= 100,
    ;
}

/// A higher percentile is never below a lower one, and the highest is the greatest value.
pub proof fn percentiles_ascend(values: Seq<u128>, p: int, q: int)
    requires
        0 <= p <= q <= 100,
    ensures
        percentile_of(values, p) <= percentile_of(values, q),
        values.len() > 0 ==> values.contains(percentile_of(values, p)),
        forall|i: int| 0 <= i < values.len() ==> #[trigger] values[i] <= percentile_of(values, 100),
{
    if values.len() > 0 {
        let n = values.len() as int;
        let s = ascending(values);
        assert(total_ordering(up_to()));
        values.lemma_sort_by_ensures(up_to());
        values.to_multiset_ensures();
        s.to_multiset_ensures();
        rank_bounds(n, p);
        rank_bounds(n, q);
        assert((n - 1) * p <= (n - 1) * q) by (nonlinear_arith)
            requires
                n > 0,
                p <= q,
        ;
        assert(rank(n, p) <= rank(n, q));
        let leq = up_to();
        assert(leq(s[rank(n, p)], s[rank(n, q)]));
        assert(s.contains(s[rank(n, p)]));
        assert(rank(n, 100) == n - 1);
        assert forall|i: int| 0 <= i < values.len() implies #[trigger] values[i] <= percentile_of(values, 100) by {
            assert(values.contains(values[i]));
            assert(values.to_multiset().count(values[i]) > 0);
            assert(s.contains(values[i]));
            let k = choose|k: int| 0 <= k < s.len() && s[k] == values[i];
            assert(leq(s[k], s[n - 1]));
        }
    }
}

/// The transactions of an actor make each of its writes once, in order.
pub proof fn batches_cover_all_writes(writes: int, size: int, every: int, i: int)
    requires
        size > 0,
        0 <= writes <= usize::MAX,
        0 <= i < batch_count(writes, size),
    ensures
        batch_at(i, writes, size, every).start < batch_at(i, writes, size, every).end,
        batch_at(i, writes, size, every).end - batch_at(i, writes, size, every).start <= size,
        i == 0 ==> batch_at(i, writes, size, every).start == 0,
        i + 1 < batch_count(writes, size) ==> batch_at(i, writes, size, every).end == batch_at(
            i + 1,
            writes,
            size,
            every,
        ).start,
        i + 1 == batch_count(writes, size) ==> batch_at(i, writes, size, every).end == writes,
{
    let n = batch_count(writes, size);
    assert(n * size <= writes + size - 1 && writes + size - 1 < (n + 1) * size) by (nonlinear_arith)
        requires
            size > 0,
            n == (writes + size - 1) / size,
    ;
    assert(i * size >= 0) by (nonlinear_arith)
        requires
            i >= 0,
            size > 0,
    ;
    assert((i + 1) * size == i * size + size) by (nonlinear_arith);
    assert((n + 1) * size == n * size + size) by (nonlinear_arith);
    assert((i + 1) * size <= n * size) by (nonlinear_arith)
        requires
            i + 1 <= n,
            size > 0,
    ;
    assert(0 * size == 0) by (nonlinear_arith);
    if i + 1 < n {
        assert((i + 2) * size <= n * size) by (nonlinear_arith)
            requires
                i + 2 <= n,
                size > 0,
        ;
        assert((i + 2) * size == (i + 1) * size + size) by (nonlinear_arith);
    }
}

} // verus!
