//! What a read view sees of a table.
use crate::ids;
use crate::mvcc;
use crate::mvcc::{ActiveTransaction, CommitId, IsolationLevel, MvccModel, VersionModel, VersionsModel};
use crate::row::RowModel;
use crate::seqs;
use vstd::prelude::*;

verus! {

/// Whether the rows have different ids.
pub open spec fn ids_differ(rows: Seq<RowModel>) -> bool {
    forall|i: int, j: int|
        0 <= i < j < rows.len() ==> (#[trigger] rows[i]).row_id != (#[trigger] rows[j]).row_id
}

pub open spec fn entries_differ<V>(s: Seq<(u64, V)>) -> bool {
    forall|i: int, j: int| 0 <= i < j < s.len() ==> (#[trigger] s[i]).0 != (#[trigger] s[j]).0
}

/// Whether the replaced versions stand under the ids of their rows, each id once.
pub open spec fn keyed(v: VersionsModel) -> bool {
    &&& entries_differ(v.history)
    &&& forall|i: int| 0 <= i < v.history.len() ==> (#[trigger] v.history[i]).0 != 0
    &&& forall|i: int, k: int|
        #![trigger v.history[i].1[k]]
        0 <= i < v.history.len() && 0 <= k < v.history[i].1.len() ==> v.history[i].1[k].row.row_id
            == v.history[i].0
}

/// Whether a row is the last that was committed under its id by a snapshot, given the rows as they
/// stand now.
pub open spec fn seen(v: VersionsModel, rows: Seq<RowModel>, snapshot: CommitId, x: RowModel) -> bool {
    if mvcc::commit_of(v, x.row_id) <= snapshot {
        rows.contains(x)
    } else {
        is_latest(mvcc::chain_of(v, x.row_id), snapshot, x)
    }
}

/// Whether a row stands in the last of the latest versions that a snapshot sees.
pub open spec fn is_latest(chain: Seq<VersionModel>, snapshot: CommitId, x: RowModel) -> bool {
    exists|k: int|
        0 <= k < chain.len() && (#[trigger] chain[k]).row == x && chain[k].commit_id <= snapshot
            && forall|j: int|
            0 <= j < chain.len() && (#[trigger] chain[j]).commit_id <= snapshot ==> chain[j].commit_id
                < chain[k].commit_id || (chain[j].commit_id == chain[k].commit_id && j <= k)
}

// ---------------------------------------------------------------------------------------------
// Versions
// ---------------------------------------------------------------------------------------------
/// The place of the best version so far.
proof fn latest_place(
    chain: Seq<VersionModel>,
    snapshot: CommitId,
    at: int,
    best: Option<int>,
) -> (k: Option<int>)
    requires
        0 <= at <= chain.len(),
        best matches Some(b) ==> 0 <= b < at && chain[b].commit_id <= snapshot,
        forall|j: int|
            0 <= j < at && (#[trigger] chain[j]).commit_id <= snapshot ==> best is Some && (
            chain[j].commit_id < chain[best->0].commit_id || (chain[j].commit_id
                == chain[best->0].commit_id && j <= best->0)),
    ensures
        mvcc::latest_from(
            chain,
            snapshot,
            at,
            match best {
                Some(b) => Some(chain[b]),
                None => None,
            },
        ) == (match k {
            Some(p) => Some(chain[p]),
            None => None,
        }),
        k matches Some(p) ==> 0 <= p < chain.len() && chain[p].commit_id <= snapshot,
        forall|j: int|
            0 <= j < chain.len() && (#[trigger] chain[j]).commit_id <= snapshot ==> k is Some && (
            chain[j].commit_id < chain[k->0].commit_id || (chain[j].commit_id
                == chain[k->0].commit_id && j <= k->0)),
    decreases chain.len() - at,
{
    if at < chain.len() {
        let next = if chain[at].commit_id <= snapshot && (best is None || chain[at].commit_id
            >= chain[best->0].commit_id) {
            Some(at)
        } else {
            best
        };
        latest_place(chain, snapshot, at + 1, next)
    } else {
        best
    }
}

proof fn latest_means(chain: Seq<VersionModel>, snapshot: CommitId, x: RowModel)
    ensures
        (mvcc::latest_at(chain, snapshot) matches Some(o) && o.row == x) <==> is_latest(
            chain,
            snapshot,
            x,
        ),
        mvcc::latest_at(chain, snapshot) matches Some(o) ==> chain.contains(o),
{
    let k = latest_place(chain, snapshot, 0, None);
    match k {
        None => {
            if is_latest(chain, snapshot, x) {
                let p = choose|p: int|
                    0 <= p < chain.len() && (#[trigger] chain[p]).row == x && chain[p].commit_id
                        <= snapshot;
                assert(chain[p].commit_id <= snapshot);
            }
        },
        Some(p) => {
            assert(chain[p].commit_id <= snapshot);
            if chain[p].row == x {
                assert(is_latest(chain, snapshot, x));
            }
            if is_latest(chain, snapshot, x) {
                let q = choose|q: int|
                    0 <= q < chain.len() && (#[trigger] chain[q]).row == x && chain[q].commit_id
                        <= snapshot && forall|j: int|
                        0 <= j < chain.len() && (#[trigger] chain[j]).commit_id <= snapshot
                            ==> chain[j].commit_id < chain[q].commit_id || (chain[j].commit_id
                            == chain[q].commit_id && j <= q);
                assert(chain[q].commit_id <= snapshot);
                assert(chain[p].commit_id <= snapshot);
                assert(p == q);
            }
        },
    }
}

proof fn chain_at(v: VersionsModel, i: int)
    requires
        keyed(v),
        0 <= i < v.history.len(),
    ensures
        mvcc::chain_of(v, v.history[i].0) == v.history[i].1,
{
    ids::place_is(v.history, v.history[i].0, i);
}

/// A version that a snapshot sees of an id has that id.
proof fn version_keeps_id(
    v: VersionsModel,
    id: u64,
    now: Option<RowModel>,
    snapshot: CommitId,
)
    requires
        keyed(v),
        now matches Some(r) ==> r.row_id == id,
    ensures
        mvcc::version(v, id, now, snapshot) matches Some(r) ==> r.row_id == id,
{
    let chain = mvcc::chain_of(v, id);
    ids::place_found(v.history, id, 0);
    match mvcc::latest_at(chain, snapshot) {
        None => {},
        Some(o) => {
            latest_means(chain, snapshot, o.row);
            let k = choose|k: int| 0 <= k < chain.len() && chain[k] == o;
            let i = ids::place(v.history, id)->0;
            assert(v.history[i].1[k].row.row_id == v.history[i].0);
        },
    }
}

// ---------------------------------------------------------------------------------------------
// How often a row is seen
// ---------------------------------------------------------------------------------------------
proof fn count_push(s: Seq<RowModel>, y: RowModel, x: RowModel)
    ensures
        s.push(y).to_multiset().count(x) == s.to_multiset().count(x) + if x == y {
            1nat
        } else {
            0nat
        },
{
    broadcast use vstd::seq_lib::group_to_multiset_ensures;

    assert(s.push(y).to_multiset() =~= s.to_multiset().insert(y));
}

pub open spec fn one_if(b: bool) -> nat {
    if b {
        1
    } else {
        0
    }
}

proof fn present_count(
    v: VersionsModel,
    rows: Seq<RowModel>,
    snapshot: CommitId,
    at: int,
    done: Seq<RowModel>,
    x: RowModel,
)
    requires
        keyed(v),
        ids_differ(rows),
        0 <= at <= rows.len(),
    ensures
        mvcc::present_from(v, rows, snapshot, at, done).to_multiset().count(x)
            == done.to_multiset().count(x) + one_if(
            exists|i: int|
                at <= i < rows.len() && (#[trigger] rows[i]).row_id == x.row_id && mvcc::version(
                    v,
                    x.row_id,
                    Some(rows[i]),
                    snapshot,
                ) == Some(x),
        ),
    decreases rows.len() - at,
{
    if at < rows.len() {
        let r = mvcc::version(v, rows[at].row_id, Some(rows[at]), snapshot);
        version_keeps_id(v, rows[at].row_id, Some(rows[at]), snapshot);
        let next = mvcc::with_some(done, r);
        if r is Some {
            count_push(done, r->0, x);
        }
        present_count(v, rows, snapshot, at + 1, next, x);
        if exists|i: int|
            at + 1 <= i < rows.len() && (#[trigger] rows[i]).row_id == x.row_id && mvcc::version(
                v,
                x.row_id,
                Some(rows[i]),
                snapshot,
            ) == Some(x) {
            let i = choose|i: int|
                at + 1 <= i < rows.len() && (#[trigger] rows[i]).row_id == x.row_id && mvcc::version(
                    v,
                    x.row_id,
                    Some(rows[i]),
                    snapshot,
                ) == Some(x);
            assert(rows[at].row_id != rows[i].row_id);
        } else if r == Some(x) {
            assert(rows[at].row_id == x.row_id);
        }
    }
}

proof fn gone_count(
    v: VersionsModel,
    held: Seq<u64>,
    snapshot: CommitId,
    at: int,
    done: Seq<RowModel>,
    x: RowModel,
)
    requires
        keyed(v),
        0 <= at <= v.history.len(),
    ensures
        mvcc::gone_from(v, held, snapshot, at, done).to_multiset().count(x)
            == done.to_multiset().count(x) + one_if(
            !held.contains(x.row_id) && mvcc::commit_of(v, x.row_id) > snapshot && exists|i: int|
                at <= i < v.history.len() && (#[trigger] v.history[i]).0 == x.row_id && is_latest(
                    v.history[i].1,
                    snapshot,
                    x,
                ),
        ),
    decreases v.history.len() - at,
{
    if at < v.history.len() {
        let id = v.history[at].0;
        let chain = v.history[at].1;
        let o = mvcc::latest_at(chain, snapshot);
        latest_means(chain, snapshot, x);
        if o is Some {
            let k = choose|k: int| 0 <= k < chain.len() && chain[k] == o->0;
            assert(v.history[at].1[k].row.row_id == v.history[at].0);
            count_push(done, (o->0).row, x);
        }
        let r = match o {
            Some(old) => Some(old.row),
            None => None,
        };
        let next = if held.contains(id) || mvcc::commit_of(v, id) <= snapshot {
            done
        } else {
            mvcc::with_some(done, r)
        };
        gone_count(v, held, snapshot, at + 1, next, x);
        if exists|i: int|
            at + 1 <= i < v.history.len() && (#[trigger] v.history[i]).0 == x.row_id && is_latest(
                v.history[i].1,
                snapshot,
                x,
            ) {
            let i = choose|i: int|
                at + 1 <= i < v.history.len() && (#[trigger] v.history[i]).0 == x.row_id
                    && is_latest(v.history[i].1, snapshot, x);
            assert(v.history[at].0 != v.history[i].0);
        } else if id == x.row_id && is_latest(chain, snapshot, x) {
            assert(v.history[at].0 == x.row_id);
        }
    }
}

/// A read view sees a row once where it is the last that was committed under its id by the view's
/// snapshot, and else not at all.
pub proof fn a_row_is_seen_once(
    v: VersionsModel,
    rows: Seq<RowModel>,
    snapshot: CommitId,
    x: RowModel,
)
    requires
        keyed(v),
        ids_differ(rows),
    ensures
        mvcc::visible(v, rows, snapshot).to_multiset().count(x) == one_if(
            seen(v, rows, snapshot, x),
        ),
{
    broadcast use vstd::seq_lib::group_to_multiset_ensures;

    let id = x.row_id;
    let held = mvcc::ids_from(rows, 0, Seq::empty());
    let present = mvcc::present_from(v, rows, snapshot, 0, Seq::empty());
    mvcc::ids_hold(rows, 0, Seq::empty(), id);
    present_count(v, rows, snapshot, 0, Seq::empty(), x);
    gone_count(v, held, snapshot, 0, present, x);
    assert(Seq::<RowModel>::empty().to_multiset().count(x) == 0);
    ids::place_found(v.history, id, 0);
    let chain = mvcc::chain_of(v, id);
    latest_means(chain, snapshot, x);
    if exists|i: int| 0 <= i < rows.len() && (#[trigger] rows[i]).row_id == id {
        let i = choose|i: int| 0 <= i < rows.len() && (#[trigger] rows[i]).row_id == id;
        if id == 0 && ids::place(v.history, id) is Some {
            assert(v.history[ids::place(v.history, id)->0].0 != 0);
        }
        assert(!(exists|k: int|
            0 <= k < v.history.len() && (#[trigger] v.history[k]).0 == id && id == 0));
        if rows.contains(x) {
            let k = choose|k: int| 0 <= k < rows.len() && rows[k] == x;
            assert(rows[k].row_id == id);
            if k < i {
                assert(rows[k].row_id != rows[i].row_id);
            } else if i < k {
                assert(rows[i].row_id != rows[k].row_id);
            }
            assert(rows[i] == x);
        }
        assert(mvcc::version(v, id, Some(rows[i]), snapshot) == Some(x) <==> seen(
            v,
            rows,
            snapshot,
            x,
        ));
        if seen(v, rows, snapshot, x) {
            assert(rows[i].row_id == id && mvcc::version(v, id, Some(rows[i]), snapshot) == Some(
                x,
            ));
        } else {
            assert forall|k: int|
                0 <= k < rows.len() && (#[trigger] rows[k]).row_id == id implies mvcc::version(
                v,
                id,
                Some(rows[k]),
                snapshot,
            ) != Some(x) by {
                if k < i {
                    assert(rows[k].row_id != rows[i].row_id);
                } else if i < k {
                    assert(rows[i].row_id != rows[k].row_id);
                }
            }
        }
    } else {
        if rows.contains(x) {
            let k = choose|k: int| 0 <= k < rows.len() && rows[k] == x;
            assert(rows[k].row_id == id);
        }
        if seen(v, rows, snapshot, x) {
            let i = ids::place(v.history, id)->0;
            assert(v.history[i].0 == id && v.history[i].1 == chain);
        } else {
            assert forall|k: int|
                0 <= k < v.history.len() && (#[trigger] v.history[k]).0 == id implies !is_latest(
                v.history[k].1,
                snapshot,
                x,
            ) || mvcc::commit_of(v, id) <= snapshot by {
                chain_at(v, k);
            }
        }
    }
}

proof fn count_two(s: Seq<RowModel>, i: int, j: int)
    requires
        0 <= i < j < s.len(),
        s[i] == s[j],
    ensures
        s.to_multiset().count(s[i]) >= 2,
    decreases s.len(),
{
    broadcast use vstd::seq_lib::group_to_multiset_ensures;

    let t = s.drop_last();
    assert(s =~= t.push(s.last()));
    count_push(t, s.last(), s[i]);
    if j < s.len() - 1 {
        count_two(t, i, j);
    } else {
        assert(t.contains(t[i]));
    }
}

/// A read view sees each id at most once, and each row that it sees is the last that was committed
/// under its id by its snapshot.
pub proof fn an_id_is_seen_once(
    v: VersionsModel,
    rows: Seq<RowModel>,
    snapshot: CommitId,
    i: int,
    j: int,
)
    requires
        keyed(v),
        ids_differ(rows),
        0 <= i < j < mvcc::visible(v, rows, snapshot).len(),
    ensures
        mvcc::visible(v, rows, snapshot)[i].row_id != mvcc::visible(v, rows, snapshot)[j].row_id,
        seen(v, rows, snapshot, mvcc::visible(v, rows, snapshot)[i]),
{
    broadcast use vstd::seq_lib::group_to_multiset_ensures;

    let s = mvcc::visible(v, rows, snapshot);
    let a = s[i];
    let b = s[j];
    a_row_is_seen_once(v, rows, snapshot, a);
    a_row_is_seen_once(v, rows, snapshot, b);
    assert(s.contains(a) && s.contains(b));
    assert(s.to_multiset().count(a) > 0 && s.to_multiset().count(b) > 0);
    if a.row_id == b.row_id {
        if a == b {
            count_two(s, i, j);
        } else if mvcc::commit_of(v, a.row_id) <= snapshot {
            let p = choose|p: int| 0 <= p < rows.len() && rows[p] == a;
            let q = choose|q: int| 0 <= q < rows.len() && rows[q] == b;
            if p < q {
                assert(rows[p].row_id != rows[q].row_id);
            } else {
                assert(rows[q].row_id != rows[p].row_id);
            }
        } else {
            latest_means(mvcc::chain_of(v, a.row_id), snapshot, a);
            latest_means(mvcc::chain_of(v, a.row_id), snapshot, b);
        }
    }
}

/// A read view that has every commit sees the table as it stands.
pub proof fn a_fresh_view_sees_the_table(v: VersionsModel, rows: Seq<RowModel>, snapshot: CommitId)
    requires
        forall|id: u64| #[trigger] mvcc::commit_of(v, id) <= snapshot,
    ensures
        mvcc::visible(v, rows, snapshot) == rows,
{
    fresh_present(v, rows, snapshot, 0);
    let held = mvcc::ids_from(rows, 0, Seq::empty());
    assert(rows.take(0) =~= Seq::empty());
    fresh_gone(v, held, snapshot, 0, rows);
}

proof fn fresh_present(v: VersionsModel, rows: Seq<RowModel>, snapshot: CommitId, at: int)
    requires
        0 <= at <= rows.len(),
        forall|id: u64| #[trigger] mvcc::commit_of(v, id) <= snapshot,
    ensures
        mvcc::present_from(v, rows, snapshot, at, rows.take(at)) == rows,
    decreases rows.len() - at,
{
    if at < rows.len() {
        assert(mvcc::commit_of(v, rows[at].row_id) <= snapshot);
        assert(rows.take(at).push(rows[at]) =~= rows.take(at + 1));
        fresh_present(v, rows, snapshot, at + 1);
    } else {
        assert(rows.take(at) =~= rows);
    }
}

proof fn fresh_gone(
    v: VersionsModel,
    held: Seq<u64>,
    snapshot: CommitId,
    at: int,
    done: Seq<RowModel>,
)
    requires
        0 <= at <= v.history.len(),
        forall|id: u64| #[trigger] mvcc::commit_of(v, id) <= snapshot,
    ensures
        mvcc::gone_from(v, held, snapshot, at, done) == done,
    decreases v.history.len() - at,
{
    if at < v.history.len() {
        assert(mvcc::commit_of(v, v.history[at].0) <= snapshot);
        fresh_gone(v, held, snapshot, at + 1, done);
    }
}

// ---------------------------------------------------------------------------------------------
// Commits
// ---------------------------------------------------------------------------------------------
proof fn row_of_means(rows: Seq<RowModel>, id: u64, n: int)
    requires
        0 <= n <= rows.len(),
        ids_differ(rows),
    ensures
        mvcc::row_upto(rows, id, n) matches Some(r) ==> r.row_id == id && rows.contains(r),
        mvcc::row_upto(rows, id, n) is None ==> forall|i: int|
            0 <= i < n ==> (#[trigger] rows[i]).row_id != id,
        forall|i: int|
            0 <= i < n && (#[trigger] rows[i]).row_id == id ==> mvcc::row_upto(rows, id, n) == Some(
                rows[i],
            ),
    decreases n,
{
    if n > 0 {
        row_of_means(rows, id, n - 1);
        if rows[n - 1].row_id == id {
            assert(rows.contains(rows[n - 1]));
            assert forall|i: int| 0 <= i < n && (#[trigger] rows[i]).row_id == id implies rows[i]
                == rows[n - 1] by {
                if i < n - 1 {
                    assert(rows[i].row_id != rows[n - 1].row_id);
                }
            }
        }
    }
}

proof fn recorded_keyed(
    v: VersionsModel,
    id: u64,
    old_row: Option<RowModel>,
    new_row: Option<RowModel>,
    commit: CommitId,
)
    requires
        keyed(v),
        id != 0,
        old_row matches Some(r) ==> r.row_id == id,
    ensures
        keyed(mvcc::recorded(v, id, old_row, new_row, commit)),
{
    if old_row != new_row && old_row is Some {
        let after = mvcc::recorded(v, id, old_row, new_row, commit);
        let x = VersionModel { commit_id: mvcc::commit_of(v, id), row: old_row->0 };
        let chain = mvcc::chain_of(v, id).push(x);
        ids::place_found(v.history, id, 0);
        assert(after.history == ids::with_value(v.history, id, chain));
        assert forall|i: int, k: int|
            #![trigger after.history[i].1[k]]
            0 <= i < after.history.len() && 0 <= k
                < after.history[i].1.len() implies after.history[i].1[k].row.row_id
            == after.history[i].0 by {
            match ids::place(v.history, id) {
                Some(p) => {
                    if i == p {
                        if k < v.history[p].1.len() {
                            assert(v.history[p].1[k].row.row_id == v.history[p].0);
                        }
                    } else {
                        assert(v.history[i].1[k].row.row_id == v.history[i].0);
                    }
                },
                None => {
                    if i < v.history.len() {
                        assert(v.history[i].1[k].row.row_id == v.history[i].0);
                    }
                },
            }
        }
        assert(entries_differ(after.history)) by {
            assert forall|i: int, j: int| 0 <= i < j < after.history.len() implies (
            #[trigger] after.history[i]).0 != (#[trigger] after.history[j]).0 by {
                if j < v.history.len() {
                    assert(v.history[i].0 != v.history[j].0);
                } else {
                    assert(v.history[i].0 != id);
                }
            }
        }
        assert forall|i: int| 0 <= i < after.history.len() implies (
        #[trigger] after.history[i]).0 != 0 by {
            if i < v.history.len() {
                assert(v.history[i].0 != 0);
            }
        }
    }
}

proof fn recorded_list_keyed(
    v: VersionsModel,
    list: Seq<u64>,
    at: int,
    before: Seq<RowModel>,
    after: Seq<RowModel>,
    commit: CommitId,
)
    requires
        keyed(v),
        ids_differ(before),
        0 <= at <= list.len(),
        !list.contains(0),
    ensures
        keyed(mvcc::recorded_from(v, list, at, before, after, commit)),
    decreases list.len() - at,
{
    if at < list.len() {
        let id = list[at];
        assert(list.contains(id));
        row_of_means(before, id, before.len() as int);
        let old_row = mvcc::row_of(before, id);
        let new_row = mvcc::row_of(after, id);
        recorded_keyed(v, id, old_row, new_row, commit);
        recorded_list_keyed(
            mvcc::recorded(v, id, old_row, new_row, commit),
            list,
            at + 1,
            before,
            after,
            commit,
        );
    }
}

/// Recording a commit keeps the versions under the ids of their rows.
pub proof fn recording_keeps_versions_keyed(
    v: VersionsModel,
    before: Seq<RowModel>,
    after: Seq<RowModel>,
    commit: CommitId,
)
    requires
        keyed(v),
        ids_differ(before),
    ensures
        keyed(
            mvcc::recorded_from(v, mvcc::changed_ids(before, after), 0, before, after, commit),
        ),
{
    let first = mvcc::ids_from(before, 0, Seq::empty());
    mvcc::ids_hold(before, 0, Seq::empty(), 0);
    mvcc::ids_hold(after, 0, first, 0);
    recorded_list_keyed(v, mvcc::changed_ids(before, after), 0, before, after, commit);
}

/// The rows that `version` gives under each id are the rows that are seen.
proof fn version_means(
    v: VersionsModel,
    rows: Seq<RowModel>,
    snapshot: CommitId,
    x: RowModel,
)
    requires
        ids_differ(rows),
    ensures
        mvcc::version(v, x.row_id, mvcc::row_of(rows, x.row_id), snapshot) == Some(x) <==> seen(
            v,
            rows,
            snapshot,
            x,
        ),
{
    row_of_means(rows, x.row_id, rows.len() as int);
    latest_means(mvcc::chain_of(v, x.row_id), snapshot, x);
    if rows.contains(x) {
        let i = choose|i: int| 0 <= i < rows.len() && rows[i] == x;
        assert(rows[i].row_id == x.row_id);
    }
}

/// A commit later than a view leaves what the view sees: the same rows, each as often as before.
/// The commit's new rows must have ids that no row had before.
pub proof fn a_later_commit_changes_no_view(
    v: VersionsModel,
    before: Seq<RowModel>,
    after: Seq<RowModel>,
    commit: CommitId,
    snapshot: CommitId,
)
    requires
        keyed(v),
        forall|id: u64| #[trigger] mvcc::ordered(v, id),
        ids_differ(before),
        ids_differ(after),
        forall|i: int| 0 <= i < before.len() ==> (#[trigger] before[i]).row_id != 0,
        forall|i: int| 0 <= i < after.len() ==> (#[trigger] after[i]).row_id != 0,
        commit > snapshot,
        forall|i: int|
            0 <= i < after.len() && (forall|j: int|
                0 <= j < before.len() ==> (#[trigger] before[j]).row_id != after[i].row_id)
                ==> mvcc::chain_of(v, (#[trigger] after[i]).row_id).len() == 0,
    ensures
        mvcc::visible(
            mvcc::recorded_from(v, mvcc::changed_ids(before, after), 0, before, after, commit),
            after,
            snapshot,
        ).to_multiset() == mvcc::visible(v, before, snapshot).to_multiset(),
{
    let later = mvcc::recorded_from(v, mvcc::changed_ids(before, after), 0, before, after, commit);
    recording_keeps_versions_keyed(v, before, after, commit);
    let a = mvcc::visible(later, after, snapshot).to_multiset();
    let b = mvcc::visible(v, before, snapshot).to_multiset();
    assert forall|x: RowModel| #[trigger] a.count(x) == b.count(x) by {
        let id = x.row_id;
        a_row_is_seen_once(v, before, snapshot, x);
        a_row_is_seen_once(later, after, snapshot, x);
        version_means(v, before, snapshot, x);
        version_means(later, after, snapshot, x);
        row_of_means(before, id, before.len() as int);
        row_of_means(after, id, after.len() as int);
        assert(mvcc::ordered(v, id));
        if id != 0 {
            if mvcc::row_of(before, id) is None && mvcc::row_of(after, id) is Some {
                let r = mvcc::row_of(after, id)->0;
                let i = choose|i: int| 0 <= i < after.len() && after[i] == r;
                assert(after[i].row_id == id);
                assert(mvcc::chain_of(v, after[i].row_id).len() == 0);
            }
            mvcc::later_table_commit_is_invisible(v, before, after, commit, snapshot, id);
        } else {
            ids::place_found(later.history, 0, 0);
            ids::place_found(v.history, 0, 0);
            assert(mvcc::chain_of(v, 0).len() == 0);
            assert(mvcc::chain_of(later, 0).len() == 0);
            if mvcc::row_of(before, 0) is Some {
                let i = choose|i: int| 0 <= i < before.len() && before[i] == mvcc::row_of(before, 0)->0;
                assert(before[i].row_id != 0);
            }
            if mvcc::row_of(after, 0) is Some {
                let i = choose|i: int| 0 <= i < after.len() && after[i] == mvcc::row_of(after, 0)->0;
                assert(after[i].row_id != 0);
            }
        }
    }
    assert(a =~= b);
}

/// A commit is seen by the views that have it: where a snapshot has the commit and all before it,
/// the view sees the rows that the commit left.
pub proof fn a_commit_is_seen(
    v: VersionsModel,
    before: Seq<RowModel>,
    after: Seq<RowModel>,
    commit: CommitId,
    snapshot: CommitId,
)
    requires
        commit <= snapshot,
        forall|id: u64| #[trigger] mvcc::commit_of(v, id) <= snapshot,
    ensures
        mvcc::visible(
            mvcc::recorded_from(v, mvcc::changed_ids(before, after), 0, before, after, commit),
            after,
            snapshot,
        ) == after,
{
    let list = mvcc::changed_ids(before, after);
    let later = mvcc::recorded_from(v, list, 0, before, after, commit);
    assert forall|id: u64| #[trigger] mvcc::commit_of(later, id) <= snapshot by {
        commit_bounded(v, list, 0, before, after, commit, snapshot, id);
    }
    a_fresh_view_sees_the_table(later, after, snapshot);
}

proof fn commit_bounded(
    v: VersionsModel,
    list: Seq<u64>,
    at: int,
    before: Seq<RowModel>,
    after: Seq<RowModel>,
    commit: CommitId,
    snapshot: CommitId,
    id: u64,
)
    requires
        0 <= at <= list.len(),
        commit <= snapshot,
        mvcc::commit_of(v, id) <= snapshot,
    ensures
        mvcc::commit_of(mvcc::recorded_from(v, list, at, before, after, commit), id) <= snapshot,
    decreases list.len() - at,
{
    if at < list.len() {
        let x = list[at];
        let old_row = mvcc::row_of(before, x);
        let new_row = mvcc::row_of(after, x);
        let next = mvcc::recorded(v, x, old_row, new_row, commit);
        if x == id {
            if old_row != new_row {
                ids::set_then_value(v.current, id, commit, id);
            } else if ids::value(v.current, id) is None {
                ids::set_then_value(v.current, id, 0, id);
                assert(ids::with_value(v.current, id, 0) == v.current.push((id, 0)));
            }
        } else {
            mvcc::other_rows_keep_versions(v, x, old_row, new_row, commit, id);
        }
        commit_bounded(next, list, at + 1, before, after, commit, snapshot, id);
    }
}

/// Rows that a later commit inserts are not seen. Their ids must be new.
pub proof fn later_inserts_are_not_seen(
    v: VersionsModel,
    rows: Seq<RowModel>,
    more: Seq<RowModel>,
    commit: CommitId,
    snapshot: CommitId,
)
    requires
        commit > snapshot,
        forall|i: int|
            0 <= i < more.len() ==> (#[trigger] more[i]).row_id != 0 && mvcc::chain_of(
                v,
                more[i].row_id,
            ).len() == 0,
        forall|i: int, j: int|
            0 <= i < rows.len() && 0 <= j < more.len() ==> (#[trigger] rows[i]).row_id != (
            #[trigger] more[j]).row_id,
        forall|i: int, j: int|
            0 <= i < v.history.len() && 0 <= j < more.len() ==> (#[trigger] v.history[i]).0 != (
            #[trigger] more[j]).row_id,
    ensures
        mvcc::visible(
            VersionsModel {
                current: mvcc::inserted_from(
                    v.current,
                    more.map_values(|r: RowModel| r.row_id),
                    0,
                    commit,
                ),
                ..v
            },
            rows + more,
            snapshot,
        ) == mvcc::visible(v, rows, snapshot),
{
    let row_ids = more.map_values(|r: RowModel| r.row_id);
    let later = VersionsModel { current: mvcc::inserted_from(v.current, row_ids, 0, commit), ..v };
    assert forall|id: u64| row_ids.contains(id) implies #[trigger] mvcc::commit_of(later, id) == commit by {
        let k = choose|k: int| 0 <= k < row_ids.len() && row_ids[k] == id;
        assert(more[k].row_id == id);
        inserted_commit(v.current, row_ids, 0, commit, id);
    }
    assert forall|id: u64| !row_ids.contains(id) implies #[trigger] mvcc::commit_of(later, id)
        == mvcc::commit_of(v, id) by {
        inserted_commit(v.current, row_ids, 0, commit, id);
        if exists|k: int| 0 <= k < row_ids.len() && row_ids[k] == id {
            let k = choose|k: int| 0 <= k < row_ids.len() && row_ids[k] == id;
            assert(row_ids.contains(id));
        }
    }
    let all = rows + more;
    assert forall|j: int| 0 <= j < more.len() implies row_ids.contains(#[trigger] more[j].row_id) by {
        assert(row_ids[j] == more[j].row_id);
    }
    insert_present(v, later, rows, more, snapshot, 0, Seq::empty());
    let done = mvcc::present_from(v, rows, snapshot, 0, Seq::empty());
    let held = mvcc::ids_from(rows, 0, Seq::empty());
    let held_more = mvcc::ids_from(all, 0, Seq::empty());
    assert forall|i: int| 0 <= i < v.history.len() implies held.contains(#[trigger] v.history[i].0)
        == held_more.contains(v.history[i].0) by {
        let id = v.history[i].0;
        mvcc::ids_hold(rows, 0, Seq::empty(), id);
        mvcc::ids_hold(all, 0, Seq::empty(), id);
        if exists|k: int| 0 <= k < rows.len() && (#[trigger] rows[k]).row_id == id {
            let k = choose|k: int| 0 <= k < rows.len() && (#[trigger] rows[k]).row_id == id;
            assert(all[k].row_id == id);
        }
        if exists|k: int| 0 <= k < all.len() && (#[trigger] all[k]).row_id == id {
            let k = choose|k: int| 0 <= k < all.len() && (#[trigger] all[k]).row_id == id;
            if k >= rows.len() {
                assert(all[k] == more[k - rows.len()]);
            } else {
                assert(rows[k].row_id == id);
            }
        }
    }
    assert forall|i: int| 0 <= i < v.history.len() implies mvcc::commit_of(
        later,
        #[trigger] v.history[i].0,
    ) == mvcc::commit_of(v, v.history[i].0) by {
        let id = v.history[i].0;
        if row_ids.contains(id) {
            let k = choose|k: int| 0 <= k < row_ids.len() && row_ids[k] == id;
            assert(more[k].row_id == id);
        }
    }
    same_gone(v, later, held, held_more, snapshot, 0, done);
}

proof fn inserted_commit(
    current: Seq<(u64, CommitId)>,
    row_ids: Seq<u64>,
    at: int,
    commit: CommitId,
    id: u64,
)
    requires
        0 <= at <= row_ids.len(),
        id != 0 || !row_ids.contains(0),
    ensures
        ids::value(mvcc::inserted_from(current, row_ids, at, commit), id) == if exists|k: int|
            at <= k < row_ids.len() && row_ids[k] == id {
            Some(commit)
        } else {
            ids::value(current, id)
        },
    decreases row_ids.len() - at,
{
    if at < row_ids.len() {
        let x = row_ids[at];
        let next = if x != 0 {
            ids::with_value(current, x, commit)
        } else {
            current
        };
        assert(row_ids.contains(x));
        ids::set_then_value(current, x, commit, id);
        inserted_commit(next, row_ids, at + 1, commit, id);
        if x == id {
            assert(row_ids[at] == id);
        } else if exists|k: int| at <= k < row_ids.len() && row_ids[k] == id {
            let k = choose|k: int| at <= k < row_ids.len() && row_ids[k] == id;
            assert(at + 1 <= k);
        }
    }
}

proof fn insert_present(
    v: VersionsModel,
    later: VersionsModel,
    rows: Seq<RowModel>,
    more: Seq<RowModel>,
    snapshot: CommitId,
    at: int,
    done: Seq<RowModel>,
)
    requires
        0 <= at <= rows.len() + more.len(),
        later.history == v.history,
        forall|j: int|
            0 <= j < more.len() ==> mvcc::commit_of(later, (#[trigger] more[j]).row_id) > snapshot
                && mvcc::chain_of(v, more[j].row_id).len() == 0,
        forall|i: int|
            0 <= i < rows.len() ==> mvcc::commit_of(later, (#[trigger] rows[i]).row_id)
                == mvcc::commit_of(v, rows[i].row_id),
    ensures
        mvcc::present_from(later, rows + more, snapshot, at, done) == if at <= rows.len() {
            mvcc::present_from(v, rows, snapshot, at, done)
        } else {
            done
        },
    decreases rows.len() + more.len() - at,
{
    let all = rows + more;
    if at < rows.len() {
        assert(all[at] == rows[at]);
        let r = mvcc::version(v, rows[at].row_id, Some(rows[at]), snapshot);
        insert_present(v, later, rows, more, snapshot, at + 1, mvcc::with_some(done, r));
    } else if at < all.len() {
        assert(all[at] == more[at - rows.len()]);
        assert(mvcc::chain_of(later, all[at].row_id).len() == 0);
        insert_present(v, later, rows, more, snapshot, at + 1, done);
    }
}

proof fn same_gone(
    v: VersionsModel,
    later: VersionsModel,
    held: Seq<u64>,
    held_more: Seq<u64>,
    snapshot: CommitId,
    at: int,
    done: Seq<RowModel>,
)
    requires
        0 <= at <= v.history.len(),
        later.history == v.history,
        forall|i: int|
            0 <= i < v.history.len() ==> held.contains(#[trigger] v.history[i].0)
                == held_more.contains(v.history[i].0),
        forall|i: int|
            0 <= i < v.history.len() ==> mvcc::commit_of(later, #[trigger] v.history[i].0)
                == mvcc::commit_of(v, v.history[i].0),
    ensures
        mvcc::gone_from(later, held_more, snapshot, at, done) == mvcc::gone_from(
            v,
            held,
            snapshot,
            at,
            done,
        ),
    decreases v.history.len() - at,
{
    if at < v.history.len() {
        let id = v.history[at].0;
        let next = if held.contains(id) || mvcc::commit_of(v, id) <= snapshot {
            done
        } else {
            mvcc::with_some(
                done,
                match mvcc::latest_at(v.history[at].1, snapshot) {
                    Some(old) => Some(old.row),
                    None => None,
                },
            )
        };
        same_gone(v, later, held, held_more, snapshot, at + 1, next);
    }
}

/// Seeding a table changes no commit.
pub proof fn seeding_changes_no_commit(
    current: Seq<(u64, CommitId)>,
    history: Seq<(u64, Seq<VersionModel>)>,
    rows: Seq<RowModel>,
    at: int,
    id: u64,
)
    requires
        0 <= at <= rows.len(),
    ensures
        mvcc::commit_of(
            VersionsModel { current: mvcc::seeded_from(current, rows, at), history: history },
            id,
        ) == mvcc::commit_of(VersionsModel { current: current, history: history }, id),
    decreases rows.len() - at,
{
    if at < rows.len() {
        let x = rows[at].row_id;
        if x != 0 && ids::value(current, x) is None {
            ids::set_then_value(current, x, 0, id);
            assert(ids::with_value(current, x, 0) == current.push((x, 0)));
            seeding_changes_no_commit(current.push((x, 0)), history, rows, at + 1, id);
        } else {
            seeding_changes_no_commit(current, history, rows, at + 1, id);
        }
    }
}

// ---------------------------------------------------------------------------------------------
// Purging
// ---------------------------------------------------------------------------------------------
pub open spec fn purged_entry(oldest: CommitId) -> spec_fn((u64, Seq<VersionModel>)) -> (
    u64,
    Seq<VersionModel>,
) {
    |e: (u64, Seq<VersionModel>)| (e.0, mvcc::purged(e.1, oldest))
}

pub open spec fn entry_left() -> spec_fn((u64, Seq<VersionModel>)) -> bool {
    |e: (u64, Seq<VersionModel>)| e.1.len() > 0
}

proof fn filter_differs<V>(s: Seq<(u64, V)>, p: spec_fn((u64, V)) -> bool)
    requires
        entries_differ(s),
    ensures
        entries_differ(s.filter(p)),
    decreases s.len(),
{
    reveal(Seq::filter);
    if s.len() > 0 {
        let t = s.drop_last();
        filter_differs(t, p);
        if p(s.last()) {
            let f = t.filter(p);
            let g = s.filter(p);
            assert(g =~= f.push(s.last()));
            assert forall|i: int, j: int| 0 <= i < j < g.len() implies (#[trigger] g[i]).0 != (
            #[trigger] g[j]).0 by {
                if j < f.len() {
                    assert(f[i].0 != f[j].0);
                } else {
                    seqs::filter_holds(t, p, f[i]);
                    assert(f.contains(f[i]));
                    let k = choose|k: int| 0 <= k < t.len() && t[k] == f[i];
                    assert(s[k].0 != s[s.len() - 1].0);
                }
            }
        }
    }
}

proof fn value_in<V>(s: Seq<(u64, V)>, id: u64, x: V)
    requires
        entries_differ(s),
    ensures
        s.contains((id, x)) ==> ids::value(s, id) == Some(x),
        ids::value(s, id) == Some(x) ==> s.contains((id, x)),
{
    ids::place_found(s, id, 0);
    if s.contains((id, x)) {
        let i = choose|i: int| 0 <= i < s.len() && s[i] == (id, x);
        ids::place_is(s, id, i);
    }
    if ids::value(s, id) == Some(x) {
        let i = ids::place(s, id)->0;
        assert(s[i] == (id, x));
    }
}

proof fn kept_bound(chain: Seq<VersionModel>, snapshot: CommitId, n: int)
    requires
        0 <= n <= chain.len(),
    ensures
        0 <= mvcc::kept_from(chain, snapshot, n),
        chain.len() > 0 ==> mvcc::kept_from(chain, snapshot, n) < chain.len(),
        chain.len() == 0 ==> mvcc::kept_from(chain, snapshot, n) == 0,
    decreases n,
{
    if n > 0 && chain[n - 1].commit_id > snapshot {
        kept_bound(chain, snapshot, n - 1);
    }
}

/// Dropping the versions that the oldest snapshot cannot need leaves what it and every later
/// snapshot sees: the same rows, each as often as before.
pub proof fn purging_changes_no_view(
    v: VersionsModel,
    rows: Seq<RowModel>,
    oldest: CommitId,
    snapshot: CommitId,
)
    requires
        keyed(v),
        forall|id: u64| #[trigger] mvcc::ordered(v, id),
        ids_differ(rows),
        oldest <= snapshot,
    ensures
        mvcc::visible(
            VersionsModel { history: mvcc::purged_history(v.history, Some(oldest)), ..v },
            rows,
            snapshot,
        ).to_multiset() == mvcc::visible(v, rows, snapshot).to_multiset(),
{
    let f = purged_entry(oldest);
    let p = entry_left();
    let mapped = v.history.map_values(f);
    let less = VersionsModel { history: mvcc::purged_history(v.history, Some(oldest)), ..v };
    assert(v.history.map_values(
        |e: (u64, Seq<VersionModel>)| (e.0, mvcc::purged(e.1, oldest)),
    ) =~= mapped);
    assert(less.history == mapped.filter(p)) by {
        assert((|e: (u64, Seq<VersionModel>)| e.1.len() > 0) =~= p);
    }
    assert(entries_differ(mapped)) by {
        assert forall|i: int, j: int| 0 <= i < j < mapped.len() implies (#[trigger] mapped[i]).0 != (
        #[trigger] mapped[j]).0 by {
            assert(v.history[i].0 != v.history[j].0);
        }
    }
    filter_differs(mapped, p);
    assert forall|i: int| 0 <= i < less.history.len() implies exists|k: int|
        0 <= k < v.history.len() && mapped[k] == #[trigger] less.history[i] by {
        seqs::filter_holds(mapped, p, less.history[i]);
        assert(less.history.contains(less.history[i]));
        let k = choose|k: int| 0 <= k < mapped.len() && mapped[k] == less.history[i];
        assert(mapped[k] == less.history[i]);
    }
    assert forall|i: int| 0 <= i < less.history.len() implies (#[trigger] less.history[i]).0 != 0 by {
        let k = choose|k: int| 0 <= k < v.history.len() && mapped[k] == less.history[i];
        assert(v.history[k].0 != 0);
    }
    assert forall|i: int, k: int|
        #![trigger less.history[i].1[k]]
        0 <= i < less.history.len() && 0 <= k < less.history[i].1.len() implies less.history[i].1[k].row.row_id
        == less.history[i].0 by {
        let e = less.history[i];
        let q = choose|q: int| 0 <= q < v.history.len() && mapped[q] == e;
        let chain = v.history[q].1;
        let n = mvcc::kept_from(chain, oldest, chain.len() as int);
        kept_bound(chain, oldest, chain.len() as int);
        assert(e.1[k] == chain[n + k]);
        assert(v.history[q].1[n + k].row.row_id == v.history[q].0);
    }
    assert(keyed(less));
    let a = mvcc::visible(less, rows, snapshot).to_multiset();
    let b = mvcc::visible(v, rows, snapshot).to_multiset();
    assert forall|x: RowModel| #[trigger] a.count(x) == b.count(x) by {
        let id = x.row_id;
        a_row_is_seen_once(v, rows, snapshot, x);
        a_row_is_seen_once(less, rows, snapshot, x);
        let chain = mvcc::chain_of(v, id);
        let left = mvcc::chain_of(less, id);
        ids::place_found(v.history, id, 0);
        ids::place_found(less.history, id, 0);
        kept_bound(chain, oldest, chain.len() as int);
        assert(mvcc::ordered(v, id));
        mvcc::purging_keeps_what_is_seen(chain, oldest, snapshot);
        match ids::place(v.history, id) {
            Some(i) => {
                assert(mapped[i] == (id, mvcc::purged(chain, oldest)));
                assert(mapped.contains(mapped[i]));
                seqs::filter_holds(mapped, p, mapped[i]);
                if chain.len() > 0 {
                    value_in(less.history, id, mvcc::purged(chain, oldest));
                    assert(left == mvcc::purged(chain, oldest));
                } else {
                    if ids::place(less.history, id) is Some {
                        let e = less.history[ids::place(less.history, id)->0];
                        seqs::filter_holds(mapped, p, e);
                        assert(less.history.contains(e));
                        let q = choose|q: int| 0 <= q < mapped.len() && mapped[q] == e;
                        assert(v.history[q].0 == id);
                        chain_at(v, q);
                        assert(false);
                    }
                    assert(left =~= chain);
                }
            },
            None => {
                if ids::place(less.history, id) is Some {
                    let e = less.history[ids::place(less.history, id)->0];
                    let q = choose|q: int| 0 <= q < v.history.len() && mapped[q] == e;
                    assert(v.history[q].0 == id);
                    assert(false);
                }
                assert(left =~= chain);
            },
        }
        latest_means(chain, snapshot, x);
        latest_means(left, snapshot, x);
        if chain.len() == 0 {
            assert(left =~= chain);
        }
    }
    assert(a =~= b);
}

// ---------------------------------------------------------------------------------------------
// Snapshots
// ---------------------------------------------------------------------------------------------
/// A transaction at REPEATABLE READ or SERIALIZABLE reads first at the last commit, and from then
/// on at the same commit, whatever is committed between; one at READ COMMITTED or READ UNCOMMITTED
/// reads at the last commit each time.
pub proof fn isolation_levels_choose_snapshots(
    m: MvccModel,
    later: MvccModel,
    level: IsolationLevel,
)
    ensures
        ({
            let t = ActiveTransaction { isolation: level, snapshot: None };
            let read = mvcc::having_read(m, t);
            &&& mvcc::snapshot_of(m, t) == mvcc::last_commit(m)
            &&& read.isolation == level
            &&& level == IsolationLevel::RepeatableRead || level == IsolationLevel::Serializable
                ==> mvcc::snapshot_of(later, read) == mvcc::last_commit(m) && mvcc::having_read(
                later,
                read,
            ) == read
            &&& level == IsolationLevel::ReadCommitted || level == IsolationLevel::ReadUncommitted
                ==> mvcc::snapshot_of(later, read) == mvcc::last_commit(later)
        }),
{
}

/// The last commit is the one before the next: a commit id that is handed out is later than every
/// snapshot taken before, and is the last commit from then on.
pub proof fn commits_follow_snapshots(m: MvccModel)
    requires
        1 <= m.next_commit_id < u64::MAX,
    ensures
        mvcc::last_commit(m) < m.next_commit_id,
        mvcc::last_commit(
            MvccModel { next_commit_id: m.next_commit_id.wrapping_add(1), ..m },
        ) == m.next_commit_id,
{
}

proof fn least_is(active: Seq<(u64, ActiveTransaction)>, n: int)
    requires
        0 <= n <= active.len(),
    ensures
        match mvcc::least_snapshot(active, n) {
            Some(s) => (exists|i: int|
                0 <= i < n && (#[trigger] active[i]).1.snapshot == Some(s)) && forall|i: int|
                0 <= i < n ==> ((#[trigger] active[i]).1.snapshot matches Some(t) ==> s <= t),
            None => forall|i: int| 0 <= i < n ==> (#[trigger] active[i]).1.snapshot is None,
        },
    decreases n,
{
    if n > 0 {
        least_is(active, n - 1);
        assert(active[n - 1] == active[n - 1]);
    }
}

/// What is purged is bounded by the oldest snapshot that a transaction still reads: one of them has
/// it, and none has an older one. There is none only where no transaction has a snapshot.
pub proof fn the_oldest_snapshot_bounds_the_purge(m: MvccModel)
    ensures
        match mvcc::oldest_snapshot(m) {
            Some(s) => (exists|i: int|
                0 <= i < m.active.len() && (#[trigger] m.active[i]).1.snapshot == Some(s))
                && forall|i: int|
                0 <= i < m.active.len() ==> ((#[trigger] m.active[i]).1.snapshot matches Some(t)
                    ==> s <= t),
            None => forall|i: int|
                0 <= i < m.active.len() ==> (#[trigger] m.active[i]).1.snapshot is None,
        },
{
    least_is(m.active, m.active.len() as int);
}

} // verus!
