//! Row versions: which version of a row a transaction sees.
use crate::error;
use crate::error::{DbError, DbResult};
use crate::ids;
use crate::num;
use crate::pairs;
use crate::row::{Row, RowModel};
use vstd::prelude::*;

verus! {

pub type TransactionId = u64;

pub type CommitId = u64;

#[derive(Debug, Clone, Copy, PartialEq, Eq, Structural)]
pub enum IsolationLevel {
    ReadUncommitted,
    ReadCommitted,
    RepeatableRead,
    Serializable,
}

/// What a transaction reads: everything that was committed up to a commit.
#[derive(Debug)]
pub struct ReadView {
    pub creator: TransactionId,
    pub snapshot: CommitId,
    pub active_transactions: Vec<TransactionId>,
}

// ---------------------------------------------------------------------------------------------
// The versions of one table
// ---------------------------------------------------------------------------------------------
/// A version that a later commit replaced; `commit_id` is the commit that made it.
#[derive(Debug)]
pub struct HistoricalVersion {
    pub commit_id: CommitId,
    pub row: Row,
}

#[verifier::ext_equal]
pub struct VersionModel {
    pub commit_id: CommitId,
    pub row: RowModel,
}

impl View for HistoricalVersion {
    type V = VersionModel;

    open spec fn view(&self) -> VersionModel {
        VersionModel { commit_id: self.commit_id, row: self.row@ }
    }
}

impl DeepView for HistoricalVersion {
    type V = VersionModel;

    open spec fn deep_view(&self) -> VersionModel {
        self@
    }
}

/// The commit of each row's present version, and the versions that were replaced.
#[derive(Debug)]
pub struct TableVersions {
    pub current: Vec<(u64, CommitId)>,
    pub history: Vec<(u64, Vec<HistoricalVersion>)>,
}

#[verifier::ext_equal]
pub struct VersionsModel {
    pub current: Seq<(u64, CommitId)>,
    pub history: Seq<(u64, Seq<VersionModel>)>,
}

impl View for TableVersions {
    type V = VersionsModel;

    open spec fn view(&self) -> VersionsModel {
        VersionsModel { current: self.current.deep_view(), history: self.history.deep_view() }
    }
}

impl DeepView for TableVersions {
    type V = VersionsModel;

    open spec fn deep_view(&self) -> VersionsModel {
        self@
    }
}

pub open spec fn no_versions() -> VersionsModel {
    VersionsModel { current: Seq::empty(), history: Seq::empty() }
}

/// The commit that made the present version of a row. Rows from before any commit have none.
pub open spec fn commit_of(v: VersionsModel, id: u64) -> CommitId {
    match ids::value(v.current, id) {
        Some(c) => c,
        None => 0,
    }
}

/// The versions of a row that were replaced, the earliest first.
pub open spec fn chain_of(v: VersionsModel, id: u64) -> Seq<VersionModel> {
    match ids::value(v.history, id) {
        Some(chain) => chain,
        None => Seq::empty(),
    }
}

/// The latest version that a snapshot sees, from the `at`-th on or the best before them.
pub open spec fn latest_from(
    chain: Seq<VersionModel>,
    snapshot: CommitId,
    at: int,
    best: Option<VersionModel>,
) -> Option<VersionModel>
    decreases chain.len() - at,
{
    if at < 0 || at >= chain.len() {
        best
    } else {
        latest_from(
            chain,
            snapshot,
            at + 1,
            if chain[at].commit_id <= snapshot && (best is None || chain[at].commit_id
                >= (best->0).commit_id) {
                Some(chain[at])
            } else {
                best
            },
        )
    }
}

pub open spec fn latest_at(chain: Seq<VersionModel>, snapshot: CommitId) -> Option<VersionModel> {
    latest_from(chain, snapshot, 0, None)
}

/// The version of a row that a snapshot sees, given the row as it stands now.
pub open spec fn version(
    v: VersionsModel,
    id: u64,
    now: Option<RowModel>,
    snapshot: CommitId,
) -> Option<RowModel> {
    if commit_of(v, id) <= snapshot {
        now
    } else {
        match latest_at(chain_of(v, id), snapshot) {
            Some(old) => Some(old.row),
            None => None,
        }
    }
}

fn latest_version_at(versions: &Vec<HistoricalVersion>, snapshot: CommitId) -> (r: Option<Row>)
    ensures
        r.deep_view() == (match latest_at(versions.deep_view(), snapshot) {
            Some(old) => Some(old.row),
            None => None,
        }),
{
    let ghost chain = versions.deep_view();
    let mut best: Option<usize> = None;
    let mut i: usize = 0;
    while i < versions.len()
        invariant
            i <= versions@.len(),
            chain == versions.deep_view(),
            best matches Some(b) ==> b < versions@.len(),
            latest_from(
                chain,
                snapshot,
                i as int,
                match best {
                    Some(b) => Some(chain[b as int]),
                    None => None,
                },
            ) == latest_at(chain, snapshot),
        decreases versions@.len() - i,
    {
        assert(chain[i as int] == versions@[i as int]@);
        if versions[i].commit_id <= snapshot {
            match best {
                None => {
                    best = Some(i);
                },
                Some(b) => {
                    assert(chain[b as int] == versions@[b as int]@);
                    if versions[i].commit_id >= versions[b].commit_id {
                        best = Some(i);
                    }
                },
            }
        }
        i += 1;
    }
    match best {
        None => None,
        Some(b) => {
            assert(chain[b as int] == versions@[b as int]@);
            Some(versions[b].row.clone())
        },
    }
}

/// Rows from the `at`-th on known as present from before any commit.
pub open spec fn seeded_from(
    current: Seq<(u64, CommitId)>,
    rows: Seq<RowModel>,
    at: int,
) -> Seq<(u64, CommitId)>
    decreases rows.len() - at,
{
    if at < 0 || at >= rows.len() {
        current
    } else {
        seeded_from(
            if rows[at].row_id != 0 && ids::value(current, rows[at].row_id) is None {
                current.push((rows[at].row_id, 0))
            } else {
                current
            },
            rows,
            at + 1,
        )
    }
}

/// The last row of an id among the first `n`.
pub open spec fn row_upto(rows: Seq<RowModel>, id: u64, n: int) -> Option<RowModel>
    decreases n,
{
    if n <= 0 || n > rows.len() {
        None
    } else if rows[n - 1].row_id == id {
        Some(rows[n - 1])
    } else {
        row_upto(rows, id, n - 1)
    }
}

pub open spec fn row_of(rows: Seq<RowModel>, id: u64) -> Option<RowModel> {
    row_upto(rows, id, rows.len() as int)
}

/// The ids of rows from the `at`-th on, each once; rows without an id have none.
pub open spec fn ids_from(rows: Seq<RowModel>, at: int, done: Seq<u64>) -> Seq<u64>
    decreases rows.len() - at,
{
    if at < 0 || at >= rows.len() {
        done
    } else {
        ids_from(
            rows,
            at + 1,
            if rows[at].row_id != 0 && !done.contains(rows[at].row_id) {
                done.push(rows[at].row_id)
            } else {
                done
            },
        )
    }
}

pub open spec fn changed_ids(before: Seq<RowModel>, after: Seq<RowModel>) -> Seq<u64> {
    ids_from(after, 0, ids_from(before, 0, Seq::empty()))
}

/// The versions of a table once a commit has changed one row.
pub open spec fn recorded(
    v: VersionsModel,
    id: u64,
    old_row: Option<RowModel>,
    new_row: Option<RowModel>,
    commit: CommitId,
) -> VersionsModel {
    if old_row == new_row {
        VersionsModel {
            current: if ids::value(v.current, id) is None {
                v.current.push((id, 0))
            } else {
                v.current
            },
            ..v
        }
    } else {
        VersionsModel {
            current: ids::with_value(v.current, id, commit),
            history: match old_row {
                None => v.history,
                Some(row) => ids::with_value(
                    v.history,
                    id,
                    chain_of(v, id).push(VersionModel { commit_id: commit_of(v, id), row: row }),
                ),
            },
        }
    }
}

pub open spec fn recorded_from(
    v: VersionsModel,
    list: Seq<u64>,
    at: int,
    before: Seq<RowModel>,
    after: Seq<RowModel>,
    commit: CommitId,
) -> VersionsModel
    decreases list.len() - at,
{
    if at < 0 || at >= list.len() {
        v
    } else {
        recorded_from(
            recorded(v, list[at], row_of(before, list[at]), row_of(after, list[at]), commit),
            list,
            at + 1,
            before,
            after,
            commit,
        )
    }
}

pub open spec fn inserted_from(
    current: Seq<(u64, CommitId)>,
    row_ids: Seq<u64>,
    at: int,
    commit: CommitId,
) -> Seq<(u64, CommitId)>
    decreases row_ids.len() - at,
{
    if at < 0 || at >= row_ids.len() {
        current
    } else {
        inserted_from(
            if row_ids[at] != 0 {
                ids::with_value(current, row_ids[at], commit)
            } else {
                current
            },
            row_ids,
            at + 1,
            commit,
        )
    }
}

pub open spec fn with_some(done: Seq<RowModel>, r: Option<RowModel>) -> Seq<RowModel> {
    match r {
        Some(row) => done.push(row),
        None => done,
    }
}

/// What a snapshot sees of rows from the `at`-th on.
pub open spec fn present_from(
    v: VersionsModel,
    rows: Seq<RowModel>,
    snapshot: CommitId,
    at: int,
    done: Seq<RowModel>,
) -> Seq<RowModel>
    decreases rows.len() - at,
{
    if at < 0 || at >= rows.len() {
        done
    } else {
        present_from(
            v,
            rows,
            snapshot,
            at + 1,
            with_some(done, version(v, rows[at].row_id, Some(rows[at]), snapshot)),
        )
    }
}

/// What a snapshot sees of rows that are gone, from the `at`-th of those with versions on.
pub open spec fn gone_from(
    v: VersionsModel,
    held: Seq<u64>,
    snapshot: CommitId,
    at: int,
    done: Seq<RowModel>,
) -> Seq<RowModel>
    decreases v.history.len() - at,
{
    if at < 0 || at >= v.history.len() {
        done
    } else {
        let id = v.history[at].0;
        gone_from(
            v,
            held,
            snapshot,
            at + 1,
            if held.contains(id) || commit_of(v, id) <= snapshot {
                done
            } else {
                with_some(
                    done,
                    match latest_at(v.history[at].1, snapshot) {
                        Some(old) => Some(old.row),
                        None => None,
                    },
                )
            },
        )
    }
}

/// The table that a snapshot sees: each present row in the version that it sees, then the rows
/// that are gone since.
pub open spec fn visible(v: VersionsModel, rows: Seq<RowModel>, snapshot: CommitId) -> Seq<RowModel> {
    gone_from(
        v,
        ids_from(rows, 0, Seq::empty()),
        snapshot,
        0,
        present_from(v, rows, snapshot, 0, Seq::empty()),
    )
}

/// The last place from `n` down with a commit that a snapshot sees, or the first place.
pub open spec fn kept_from(chain: Seq<VersionModel>, snapshot: CommitId, n: int) -> int
    decreases n,
{
    if n <= 0 || n > chain.len() {
        0
    } else if chain[n - 1].commit_id <= snapshot {
        n - 1
    } else {
        kept_from(chain, snapshot, n - 1)
    }
}

/// The versions that a snapshot and later ones can still see.
pub open spec fn purged(chain: Seq<VersionModel>, snapshot: CommitId) -> Seq<VersionModel> {
    chain.skip(kept_from(chain, snapshot, chain.len() as int))
}

pub open spec fn purged_history(
    history: Seq<(u64, Seq<VersionModel>)>,
    snapshot: Option<CommitId>,
) -> Seq<(u64, Seq<VersionModel>)> {
    match snapshot {
        None => Seq::empty(),
        Some(s) => history.map_values(|e: (u64, Seq<VersionModel>)| (e.0, purged(e.1, s))).filter(
            |e: (u64, Seq<VersionModel>)| e.1.len() > 0,
        ),
    }
}

fn find_row(rows: &Vec<Row>, id: u64) -> (r: Option<usize>)
    ensures
        r is Some == row_of(rows.deep_view(), id) is Some,
        r matches Some(i) ==> i < rows@.len() && row_of(rows.deep_view(), id) == Some(rows@[i as int]@),
{
    let ghost all = rows.deep_view();
    let mut n: usize = rows.len();
    assert(all.len() == n);
    while n > 0
        invariant
            n <= rows@.len(),
            all == rows.deep_view(),
            row_upto(all, id, n as int) == row_of(all, id),
        decreases n,
    {
        assert(all[n - 1] == rows@[n - 1]@);
        if rows[n - 1].id() == id {
            return Some(n - 1);
        }
        n -= 1;
    }
    None
}

fn has_id(list: &Vec<u64>, id: u64) -> (r: bool)
    ensures
        r == list@.contains(id),
{
    let mut i: usize = 0;
    while i < list.len()
        invariant
            i <= list@.len(),
            forall|j: int| 0 <= j < i ==> list@[j] != id,
        decreases list@.len() - i,
    {
        if list[i] == id {
            return true;
        }
        i += 1;
    }
    false
}

fn add_ids(rows: &Vec<Row>, out: &mut Vec<u64>)
    ensures
        final(out)@ == ids_from(rows.deep_view(), 0, old(out)@),
{
    let ghost all = rows.deep_view();
    let ghost whole = ids_from(all, 0, out@);
    let mut i: usize = 0;
    while i < rows.len()
        invariant
            i <= rows@.len(),
            all == rows.deep_view(),
            ids_from(all, i as int, out@) == whole,
        decreases rows@.len() - i,
    {
        assert(all[i as int] == rows@[i as int]@);
        let id: u64 = rows[i].id();
        if id != 0 && !has_id(out, id) {
            out.push(id);
        }
        i += 1;
    }
}

impl TableVersions {
    pub fn new() -> (r: Self)
        ensures
            r@ == no_versions(),
    {
        let r = TableVersions { current: Vec::new(), history: Vec::new() };
        assert(r.current.deep_view() =~= Seq::empty());
        assert(r.history.deep_view() =~= Seq::empty());
        r
    }

    fn commit_of(&self, id: u64) -> (r: CommitId)
        ensures
            r == commit_of(self@, id),
    {
        match ids::find_id(&self.current, id) {
            None => 0,
            Some(i) => {
                assert(self@.current[i as int] == self.current@[i as int]);
                self.current[i].1
            },
        }
    }

    fn version(&self, row: &Row, snapshot: CommitId) -> (r: Option<Row>)
        ensures
            r.deep_view() == version(self@, row@.row_id, Some(row@), snapshot),
    {
        if self.commit_of(row.id()) <= snapshot {
            return Some(row.clone());
        }
        match ids::find_id(&self.history, row.id()) {
            None => None,
            Some(i) => {
                assert(self@.history[i as int].1 == self.history@[i as int].1.deep_view());
                latest_version_at(&self.history[i].1, snapshot)
            },
        }
    }

    fn seed(&mut self, rows: &Vec<Row>)
        ensures
            final(self)@ == (VersionsModel {
                current: seeded_from(old(self)@.current, rows.deep_view(), 0),
                ..old(self)@
            }),
    {
        let ghost all = rows.deep_view();
        let ghost whole = seeded_from(self@.current, all, 0);
        let ghost history = self.history;
        let mut i: usize = 0;
        while i < rows.len()
            invariant
                i <= rows@.len(),
                all == rows.deep_view(),
                self.history == history,
                seeded_from(self.current.deep_view(), all, i as int) == whole,
            decreases rows@.len() - i,
        {
            assert(all[i as int] == rows@[i as int]@);
            let id: u64 = rows[i].id();
            if id != 0 && ids::find_id(&self.current, id).is_none() {
                let ghost before = self.current.deep_view();
                self.current.push((id, 0));
                assert(self.current.deep_view() =~= before.push((id, 0)));
            }
            i += 1;
        }
    }

    fn record(&mut self, id: u64, old_row: Option<&Row>, new_row: Option<&Row>, commit: CommitId)
        ensures
            final(self)@ == recorded(
                old(self)@,
                id,
                match old_row {
                    Some(r) => Some(r@),
                    None => None,
                },
                match new_row {
                    Some(r) => Some(r@),
                    None => None,
                },
                commit,
            ),
    {
        let same: bool = match (old_row, new_row) {
            (None, None) => true,
            (Some(a), Some(b)) => *a == *b,
            _ => false,
        };
        if same {
            if ids::find_id(&self.current, id).is_none() {
                let ghost before = self.current.deep_view();
                self.current.push((id, 0));
                assert(self.current.deep_view() =~= before.push((id, 0)));
            }
            return;
        }
        let ghost start = self@;
        match old_row {
            None => {},
            Some(row) => {
                let commit_id = self.commit_of(id);
                let entry = HistoricalVersion { commit_id: commit_id, row: row.clone() };
                match ids::find_id(&self.history, id) {
                    Some(i) => {
                        assert(start.history[i as int].1 == self.history@[i as int].1.deep_view());
                        proof {
                            ids::place_found(start.history, id, 0);
                        }
                        let ghost chain = self.history@[i as int].1.deep_view();
                        self.history[i].1.push(entry);
                        assert(self.history@[i as int].1.deep_view() =~= chain.push(entry@));
                        assert(self.history.deep_view() =~= start.history.update(
                            i as int,
                            (id, chain.push(entry@)),
                        ));
                    },
                    None => {
                        let mut chain: Vec<HistoricalVersion> = Vec::new();
                        chain.push(entry);
                        assert(chain.deep_view() =~= Seq::<VersionModel>::empty().push(entry@));
                        self.history.push((id, chain));
                        assert(self.history.deep_view() =~= start.history.push(
                            (id, chain.deep_view()),
                        ));
                    },
                }
            },
        }
        ids::set_id(&mut self.current, id, commit);
    }

    fn record_all(&mut self, before: &Vec<Row>, after: &Vec<Row>, commit: CommitId)
        ensures
            final(self)@ == recorded_from(
                old(self)@,
                changed_ids(before.deep_view(), after.deep_view()),
                0,
                before.deep_view(),
                after.deep_view(),
                commit,
            ),
    {
        let mut list: Vec<u64> = Vec::new();
        add_ids(before, &mut list);
        add_ids(after, &mut list);
        let ghost whole = recorded_from(
            self@,
            list@,
            0,
            before.deep_view(),
            after.deep_view(),
            commit,
        );
        let mut i: usize = 0;
        while i < list.len()
            invariant
                i <= list@.len(),
                recorded_from(
                    self@,
                    list@,
                    i as int,
                    before.deep_view(),
                    after.deep_view(),
                    commit,
                ) == whole,
            decreases list@.len() - i,
        {
            let id: u64 = list[i];
            let old_row: Option<&Row> = match find_row(before, id) {
                Some(k) => Some(&before[k]),
                None => None,
            };
            let new_row: Option<&Row> = match find_row(after, id) {
                Some(k) => Some(&after[k]),
                None => None,
            };
            self.record(id, old_row, new_row, commit);
            i += 1;
        }
    }

    fn insert_ids(&mut self, row_ids: &[u64], commit: CommitId)
        ensures
            final(self)@ == (VersionsModel {
                current: inserted_from(old(self)@.current, row_ids@, 0, commit),
                ..old(self)@
            }),
    {
        let ghost whole = inserted_from(self@.current, row_ids@, 0, commit);
        let ghost history = self.history;
        let mut i: usize = 0;
        while i < row_ids.len()
            invariant
                i <= row_ids@.len(),
                self.history == history,
                inserted_from(self.current.deep_view(), row_ids@, i as int, commit) == whole,
            decreases row_ids@.len() - i,
        {
            if row_ids[i] != 0 {
                ids::set_id(&mut self.current, row_ids[i], commit);
            }
            i += 1;
        }
    }

    fn visible(&self, rows: &Vec<Row>, snapshot: CommitId) -> (r: Vec<Row>)
        ensures
            r.deep_view() == visible(self@, rows.deep_view(), snapshot),
    {
        let ghost all = rows.deep_view();
        let ghost v = self@;
        let mut held: Vec<u64> = Vec::new();
        add_ids(rows, &mut held);
        let mut out: Vec<Row> = Vec::new();
        let mut i: usize = 0;
        assert(out.deep_view() =~= Seq::empty());
        while i < rows.len()
            invariant
                i <= rows@.len(),
                all == rows.deep_view(),
                v == self@,
                present_from(v, all, snapshot, i as int, out.deep_view()) == present_from(
                    v,
                    all,
                    snapshot,
                    0,
                    Seq::empty(),
                ),
            decreases rows@.len() - i,
        {
            assert(all[i as int] == rows@[i as int]@);
            match self.version(&rows[i], snapshot) {
                None => {},
                Some(row) => {
                    let ghost before = out.deep_view();
                    let ghost made = row@;
                    out.push(row);
                    assert(out.deep_view() =~= before.push(made));
                },
            }
            i += 1;
        }
        let ghost target = gone_from(v, held@, snapshot, 0, out.deep_view());
        let mut k: usize = 0;
        while k < self.history.len()
            invariant
                k <= self.history@.len(),
                v == self@,
                gone_from(v, held@, snapshot, k as int, out.deep_view()) == target,
            decreases self.history@.len() - k,
        {
            assert(v.history[k as int] == (
                self.history@[k as int].0,
                self.history@[k as int].1.deep_view(),
            ));
            let id: u64 = self.history[k].0;
            if !has_id(&held, id) && self.commit_of(id) > snapshot {
                match latest_version_at(&self.history[k].1, snapshot) {
                    None => {},
                    Some(row) => {
                        let ghost before = out.deep_view();
                        let ghost made = row@;
                        out.push(row);
                        assert(out.deep_view() =~= before.push(made));
                    },
                }
            }
            k += 1;
        }
        out
    }

    fn purge(&mut self, snapshot: Option<CommitId>)
        ensures
            final(self)@ == (VersionsModel {
                history: purged_history(old(self)@.history, snapshot),
                ..old(self)@
            }),
    {
        match snapshot {
            None => {
                self.history = Vec::new();
                assert(self.history.deep_view() =~= Seq::empty());
            },
            Some(s) => {
                let ghost start = self.history.deep_view();
                let ghost cut = |e: (u64, Seq<VersionModel>)| (e.0, purged(e.1, s));
                let ghost some = |e: (u64, Seq<VersionModel>)| e.1.len() > 0;
                let ghost mapped = start.map_values(cut);
                let ghost current = self.current;
                let mut i: usize = 0;
                let ghost mut done: int = 0;
                assert(mapped.take(0).filter(some) =~= Seq::empty()) by {
                    reveal(Seq::filter);
                }
                assert(start.skip(0) =~= start);
                assert(self.history.deep_view() =~= mapped.take(0).filter(some) + start.skip(0));
                while i < self.history.len()
                    invariant
                        i <= self.history@.len(),
                        0 <= done <= start.len(),
                        self.current == current,
                        cut == (|e: (u64, Seq<VersionModel>)| (e.0, purged(e.1, s))),
                        some == (|e: (u64, Seq<VersionModel>)| e.1.len() > 0),
                        mapped == start.map_values(cut),
                        start.len() - done == self.history@.len() - i,
                        self.history.deep_view() == mapped.take(done).filter(some) + start.skip(
                            done,
                        ),
                        mapped.take(done).filter(some).len() == i,
                    decreases self.history@.len() - i,
                {
                    let ghost prior = self.history.deep_view();
                    proof {
                        crate::seqs::filter_step(mapped, done, some);
                        assert(prior[i as int] == start[done]);
                    }
                    let ghost chain = self.history@[i as int].1.deep_view();
                    let ghost key = self.history@[i as int].0;
                    assert(start[done] == (key, chain));
                    let n: usize = self.history[i].1.len();
                    assert(chain.len() == n);
                    let mut keep: usize = n;
                    let mut from: usize = 0;
                    while keep > 0
                        invariant_except_break
                            keep <= n,
                            from == 0,
                            i < self.history@.len(),
                            n == self.history@[i as int].1@.len(),
                            chain == self.history@[i as int].1.deep_view(),
                            kept_from(chain, s, keep as int) == kept_from(chain, s, n as int),
                        ensures
                            from == kept_from(chain, s, n as int),
                        decreases keep,
                    {
                        assert(chain[keep - 1] == self.history@[i as int].1@[keep - 1]@);
                        if self.history[i].1[keep - 1].commit_id <= s {
                            from = keep - 1;
                            break;
                        }
                        keep -= 1;
                    }
                    let mut tail: Vec<HistoricalVersion> = Vec::new();
                    if from > 0 {
                        assert(from < n) by {
                            kept_in_chain(chain, s, n as int);
                        }
                        tail = self.history[i].1.split_off(from);
                        assert(tail.deep_view() =~= chain.skip(from as int));
                        self.history[i].1 = tail;
                    } else {
                        assert(chain.skip(0) =~= chain);
                    }
                    assert(self.history@[i as int].1.deep_view() == purged(chain, s));
                    assert(self.history.deep_view() =~= prior.update(i as int, mapped[done]));
                    if self.history[i].1.len() == 0 {
                        assert(mapped[done].1.len() == 0);
                        self.history.remove(i);
                        assert(self.history.deep_view() =~= prior.remove(i as int));
                    } else {
                        assert(mapped[done].1.len() > 0);
                        i += 1;
                    }
                    assert(self.history.deep_view() =~= mapped.take(done + 1).filter(some)
                        + start.skip(done + 1));
                    proof {
                        done = done + 1;
                    }
                }
                proof {
                    assert(mapped.take(done) =~= mapped);
                    assert(start.skip(done) =~= Seq::empty());
                    assert(self.history.deep_view() =~= mapped.filter(some));
                }
            },
        }
    }
}

proof fn kept_in_chain(chain: Seq<VersionModel>, snapshot: CommitId, n: int)
    requires
        0 <= n <= chain.len(),
    ensures
        0 <= kept_from(chain, snapshot, n),
        n > 0 ==> kept_from(chain, snapshot, n) < n,
        n == 0 ==> kept_from(chain, snapshot, n) == 0,
    decreases n,
{
    if n > 0 && chain[n - 1].commit_id > snapshot {
        kept_in_chain(chain, snapshot, n - 1);
    }
}

// ---------------------------------------------------------------------------------------------
// Transactions
// ---------------------------------------------------------------------------------------------
#[derive(Debug, Clone, Copy, PartialEq, Eq, Structural)]
pub struct ActiveTransaction {
    pub isolation: IsolationLevel,
    pub snapshot: Option<CommitId>,
}

impl DeepView for ActiveTransaction {
    type V = ActiveTransaction;

    open spec fn deep_view(&self) -> ActiveTransaction {
        *self
    }
}

pub struct MvccManager {
    next_transaction_id: u64,
    next_commit_id: u64,
    active_transactions: Vec<(u64, ActiveTransaction)>,
    tables: Vec<(String, String, TableVersions)>,
}

#[verifier::ext_equal]
pub struct MvccModel {
    pub next_transaction_id: u64,
    pub next_commit_id: u64,
    pub active: Seq<(u64, ActiveTransaction)>,
    pub tables: Seq<(Seq<char>, Seq<char>, VersionsModel)>,
}

impl View for MvccManager {
    type V = MvccModel;

    closed spec fn view(&self) -> MvccModel {
        MvccModel {
            next_transaction_id: self.next_transaction_id,
            next_commit_id: self.next_commit_id,
            active: self.active_transactions.deep_view(),
            tables: self.tables.deep_view(),
        }
    }
}

/// The versions of a table; a table that nobody has written has none.
pub open spec fn versions_of(m: MvccModel, database: Seq<char>, table: Seq<char>) -> VersionsModel {
    match pairs::pair_value(m.tables, database, table) {
        Some(v) => v,
        None => no_versions(),
    }
}

pub open spec fn with_versions(
    m: MvccModel,
    database: Seq<char>,
    table: Seq<char>,
    v: VersionsModel,
) -> MvccModel {
    MvccModel { tables: pairs::with_pair(m.tables, database, table, v), ..m }
}

pub open spec fn last_commit(m: MvccModel) -> CommitId {
    if m.next_commit_id == 0 {
        0
    } else {
        (m.next_commit_id - 1) as u64
    }
}

/// Whether transactions of a level keep the snapshot of their first read.
pub open spec fn repeats(level: IsolationLevel) -> bool {
    level == IsolationLevel::RepeatableRead || level == IsolationLevel::Serializable
}

/// The snapshot that a transaction reads at, now.
pub open spec fn snapshot_of(m: MvccModel, t: ActiveTransaction) -> CommitId {
    if repeats(t.isolation) && t.snapshot is Some {
        t.snapshot->0
    } else {
        last_commit(m)
    }
}

/// A transaction once it has read.
pub open spec fn having_read(m: MvccModel, t: ActiveTransaction) -> ActiveTransaction {
    if repeats(t.isolation) {
        ActiveTransaction { snapshot: Some(snapshot_of(m, t)), ..t }
    } else {
        t
    }
}

pub open spec fn least_snapshot(active: Seq<(u64, ActiveTransaction)>, n: int) -> Option<CommitId>
    decreases n,
{
    if n <= 0 || n > active.len() {
        None
    } else {
        let before = least_snapshot(active, n - 1);
        match active[n - 1].1.snapshot {
            None => before,
            Some(s) => if before is None || s < before->0 {
                Some(s)
            } else {
                before
            },
        }
    }
}

/// The oldest snapshot that a transaction still reads at.
pub open spec fn oldest_snapshot(m: MvccModel) -> Option<CommitId> {
    least_snapshot(m.active, m.active.len() as int)
}

/// The versions that no transaction can see dropped.
pub open spec fn purged_tables(m: MvccModel) -> MvccModel {
    MvccModel {
        tables: m.tables.map_values(
            |e: (Seq<char>, Seq<char>, VersionsModel)|
                (
                    e.0,
                    e.1,
                    VersionsModel {
                        history: purged_history(e.2.history, oldest_snapshot(m)),
                        ..e.2
                    },
                ),
        ),
        ..m
    }
}

pub open spec fn versions_in(v: VersionsModel, n: int) -> nat
    decreases n,
{
    if n <= 0 || n > v.history.len() {
        0
    } else {
        versions_in(v, n - 1) + v.history[n - 1].1.len()
    }
}

pub open spec fn all_versions(m: MvccModel, n: int) -> nat
    decreases n,
{
    if n <= 0 || n > m.tables.len() {
        0
    } else {
        all_versions(m, n - 1) + versions_in(m.tables[n - 1].2, m.tables[n - 1].2.history.len() as int)
    }
}

impl Default for MvccManager {
    fn default() -> (r: Self)
        ensures
            r@ == (MvccModel {
                next_transaction_id: 1,
                next_commit_id: 1,
                active: Seq::empty(),
                tables: Seq::empty(),
            }),
    {
        MvccManager::new()
    }
}

impl MvccManager {
    pub fn new() -> (r: Self)
        ensures
            r@ == (MvccModel {
                next_transaction_id: 1,
                next_commit_id: 1,
                active: Seq::empty(),
                tables: Seq::empty(),
            }),
    {
        let r = MvccManager {
            next_transaction_id: 1,
            next_commit_id: 1,
            active_transactions: Vec::new(),
            tables: Vec::new(),
        };
        assert(r.active_transactions.deep_view() =~= Seq::empty());
        assert(r.tables.deep_view() =~= Seq::empty());
        r
    }

    pub fn begin(&mut self, isolation: IsolationLevel) -> (r: TransactionId)
        ensures
            r == old(self)@.next_transaction_id,
            final(self)@ == (MvccModel {
                next_transaction_id: r.wrapping_add(1),
                active: ids::with_value(
                    old(self)@.active,
                    r,
                    ActiveTransaction { isolation: isolation, snapshot: None },
                ),
                ..old(self)@
            }),
    {
        let id: u64 = self.next_transaction_id;
        self.next_transaction_id = id.wrapping_add(1);
        let t = ActiveTransaction { isolation: isolation, snapshot: None };
        ids::set_id(&mut self.active_transactions, id, t);
        id
    }

    /// What a transaction may read. A transaction of a repeating level keeps the snapshot of its
    /// first read.
    pub fn read_view(&mut self, transaction_id: TransactionId) -> (r: DbResult<ReadView>)
        ensures
            match ids::value(old(self)@.active, transaction_id) {
                None => r matches Err(e) && e.message@ == "transaction "@ + num::decimal(
                    transaction_id as nat,
                ) + " is not active"@ && final(self)@ == old(self)@,
                Some(t) => {
                    &&& r matches Ok(view)
                    &&& view.creator == transaction_id
                    &&& view.snapshot == snapshot_of(old(self)@, t)
                    &&& view.active_transactions@ == old(self)@.active.map_values(
                        |e: (u64, ActiveTransaction)| e.0,
                    )
                    &&& final(self)@ == (MvccModel {
                        active: ids::with_value(
                            old(self)@.active,
                            transaction_id,
                            having_read(old(self)@, t),
                        ),
                        ..old(self)@
                    })
                },
            },
    {
        let latest = self.latest_commit();
        let ghost before = self@;
        match ids::find_id(&self.active_transactions, transaction_id) {
            None => {
                let n = num::u64_text(transaction_id);
                Err(DbError::new(error::cat3("transaction ", n.as_str(), " is not active")))
            },
            Some(i) => {
                proof {
                    ids::place_found(before.active, transaction_id, 0);
                }
                assert(before.active[i as int] == self.active_transactions@[i as int]);
                let t: ActiveTransaction = self.active_transactions[i].1;
                let mut next = t;
                let snapshot: u64 = match t.isolation {
                    IsolationLevel::RepeatableRead | IsolationLevel::Serializable => {
                        let s: u64 = match t.snapshot {
                            Some(s) => s,
                            None => latest,
                        };
                        next = ActiveTransaction { isolation: t.isolation, snapshot: Some(s) };
                        s
                    },
                    IsolationLevel::ReadCommitted | IsolationLevel::ReadUncommitted => latest,
                };
                ids::set_id(&mut self.active_transactions, transaction_id, next);
                let mut list: Vec<u64> = Vec::new();
                let ghost target = before.active.map_values(|e: (u64, ActiveTransaction)| e.0);
                let mut k: usize = 0;
                assert(list@ =~= target.take(0));
                proof {
                    let now = self.active_transactions.deep_view();
                    assert(now == before.active.update(i as int, (transaction_id, next)));
                    assert forall|j: int| 0 <= j < target.len() implies (
                    #[trigger] self.active_transactions@[j]).0 == target[j] by {
                        assert(now[j].0 == self.active_transactions@[j].0);
                        assert(now[j].0 == before.active[j].0);
                    }
                    assert(now.len() == self.active_transactions@.len());
                }
                while k < self.active_transactions.len()
                    invariant
                        k <= self.active_transactions@.len(),
                        target == before.active.map_values(|e: (u64, ActiveTransaction)| e.0),
                        self.active_transactions@.len() == target.len(),
                        forall|j: int|
                            0 <= j < target.len() ==> (#[trigger] self.active_transactions@[j]).0
                                == target[j],
                        list@ == target.take(k as int),
                    decreases self.active_transactions@.len() - k,
                {
                    list.push(self.active_transactions[k].0);
                    assert(target.take(k + 1) =~= target.take(k as int).push(target[k as int]));
                    k += 1;
                }
                assert(target.take(k as int) =~= target);
                Ok(
                    ReadView {
                        creator: transaction_id,
                        snapshot: snapshot,
                        active_transactions: list,
                    },
                )
            },
        }
    }

    pub fn end(&mut self, transaction_id: TransactionId)
        ensures
            final(self)@ == purged_tables(
                MvccModel {
                    active: ids::without(old(self)@.active, transaction_id),
                    ..old(self)@
                },
            ),
    {
        ids::remove_id(&mut self.active_transactions, transaction_id);
        self.purge_old_versions();
    }

    pub fn latest_commit(&self) -> (r: CommitId)
        ensures
            r == last_commit(self@),
    {
        if self.next_commit_id == 0 {
            0
        } else {
            self.next_commit_id - 1
        }
    }

    pub fn allocate_commit_id(&mut self) -> (r: CommitId)
        ensures
            r == old(self)@.next_commit_id,
            final(self)@ == (MvccModel { next_commit_id: r.wrapping_add(1), ..old(self)@ }),
    {
        let id: u64 = self.next_commit_id;
        self.next_commit_id = id.wrapping_add(1);
        id
    }

    fn find_or_add(&mut self, database: &str, table: &str) -> (r: usize)
        ensures
            r < final(self).tables@.len(),
            final(self)@ == with_versions(
                old(self)@,
                database@,
                table@,
                versions_of(old(self)@, database@, table@),
            ),
            pairs::pair(final(self)@.tables, database@, table@) == Some(r as int),
            final(self).tables@[r as int].2@ == versions_of(old(self)@, database@, table@),
    {
        let ghost before = self@;
        match pairs::find_pair(&self.tables, database, table) {
            Some(i) => {
                proof {
                    pairs::pair_found(before.tables, database@, table@, 0);
                }
                assert(before.tables[i as int].2 == self.tables@[i as int].2@);
                assert(self.tables.deep_view() =~= pairs::with_pair(
                    before.tables,
                    database@,
                    table@,
                    before.tables[i as int].2,
                ));
                i
            },
            None => {
                let fresh = TableVersions::new();
                pairs::set_pair(&mut self.tables, database, table, fresh);
                proof {
                    pairs::pair_pushed(before.tables, database@, table@, no_versions());
                }
                let n: usize = self.tables.len();
                assert(self@.tables.len() == n);
                assert(self@.tables[n - 1].2 == self.tables@[n - 1].2@);
                n - 1
            },
        }
    }

    /// Rows that stand from before any commit.
    pub fn seed_table(&mut self, database: &str, table: &str, rows: &Vec<Row>)
        ensures
            ({
                let v = versions_of(old(self)@, database@, table@);
                final(self)@ == with_versions(
                    old(self)@,
                    database@,
                    table@,
                    VersionsModel { current: seeded_from(v.current, rows.deep_view(), 0), ..v },
                )
            }),
    {
        let ghost before = self@;
        let i = self.find_or_add(database, table);
        let ghost mid = self@;
        self.tables[i].2.seed(rows);
        proof {
            pairs::pair_rewritten(
                before.tables,
                mid.tables,
                self@.tables,
                database@,
                table@,
                versions_of(before, database@, table@),
                self.tables@[i as int].2@,
                i as int,
            );
        }
    }

    /// A commit that turned the rows `before` into the rows `after`.
    pub fn record_table_commit(
        &mut self,
        database: &str,
        table: &str,
        before: &Vec<Row>,
        after: &Vec<Row>,
        commit_id: CommitId,
    )
        ensures
            final(self)@ == with_versions(
                old(self)@,
                database@,
                table@,
                recorded_from(
                    versions_of(old(self)@, database@, table@),
                    changed_ids(before.deep_view(), after.deep_view()),
                    0,
                    before.deep_view(),
                    after.deep_view(),
                    commit_id,
                ),
            ),
    {
        let ghost start = self@;
        let i = self.find_or_add(database, table);
        let ghost mid = self@;
        self.tables[i].2.record_all(before, after, commit_id);
        proof {
            pairs::pair_rewritten(
                start.tables,
                mid.tables,
                self@.tables,
                database@,
                table@,
                versions_of(start, database@, table@),
                self.tables@[i as int].2@,
                i as int,
            );
        }
    }

    pub fn record_insert_rows(
        &mut self,
        database: &str,
        table: &str,
        row_ids: &[u64],
        commit_id: CommitId,
    )
        ensures
            ({
                let v = versions_of(old(self)@, database@, table@);
                final(self)@ == with_versions(
                    old(self)@,
                    database@,
                    table@,
                    VersionsModel { current: inserted_from(v.current, row_ids@, 0, commit_id), ..v },
                )
            }),
    {
        let ghost start = self@;
        let i = self.find_or_add(database, table);
        let ghost mid = self@;
        self.tables[i].2.insert_ids(row_ids, commit_id);
        proof {
            pairs::pair_rewritten(
                start.tables,
                mid.tables,
                self@.tables,
                database@,
                table@,
                versions_of(start, database@, table@),
                self.tables@[i as int].2@,
                i as int,
            );
        }
    }

    pub fn visible_table(
        &self,
        database: &str,
        table: &str,
        current_rows: &Vec<Row>,
        view: &ReadView,
    ) -> (r: Vec<Row>)
        ensures
            r.deep_view() == visible(
                versions_of(self@, database@, table@),
                current_rows.deep_view(),
                view.snapshot,
            ),
    {
        match pairs::find_pair(&self.tables, database, table) {
            Some(i) => {
                assert(self@.tables[i as int].2 == self.tables@[i as int].2@);
                self.tables[i].2.visible(current_rows, view.snapshot)
            },
            None => {
                let none = TableVersions::new();
                none.visible(current_rows, view.snapshot)
            },
        }
    }

    /// How many replaced versions are kept, as far as that can be counted.
    pub fn history_len(&self) -> (r: usize)
        ensures
            ({
                let n = all_versions(self@, self@.tables.len() as int);
                r == if n <= usize::MAX {
                    n as usize
                } else {
                    usize::MAX
                }
            }),
    {
        let ghost m = self@;
        let mut total: usize = 0;
        let mut i: usize = 0;
        while i < self.tables.len()
            invariant
                i <= self.tables@.len(),
                m == self@,
                total == if all_versions(m, i as int) <= usize::MAX {
                    all_versions(m, i as int) as usize
                } else {
                    usize::MAX
                },
            decreases self.tables@.len() - i,
        {
            assert(m.tables[i as int].2 == self.tables@[i as int].2@);
            let ghost v = m.tables[i as int].2;
            let ghost base = all_versions(m, i as int);
            let mut k: usize = 0;
            while k < self.tables[i].2.history.len()
                invariant
                    i < self.tables@.len(),
                    v == self.tables@[i as int].2@,
                    k <= self.tables@[i as int].2.history@.len(),
                    total == if base + versions_in(v, k as int) <= usize::MAX {
                        (base + versions_in(v, k as int)) as usize
                    } else {
                        usize::MAX
                    },
                decreases self.tables@[i as int].2.history@.len() - k,
            {
                assert(v.history[k as int].1
                    == self.tables@[i as int].2.history@[k as int].1.deep_view());
                assert(v.history[k as int].1.len()
                    == self.tables@[i as int].2.history@[k as int].1@.len());
                total = total.saturating_add(self.tables[i].2.history[k].1.len());
                k += 1;
            }
            assert(v.history.len() == self.tables@[i as int].2.history@.len());
            i += 1;
        }
        assert(m.tables.len() == self.tables@.len());
        total
    }

    fn oldest(&self) -> (r: Option<CommitId>)
        ensures
            r == oldest_snapshot(self@),
    {
        let ghost active = self@.active;
        let mut least: Option<u64> = None;
        let mut i: usize = 0;
        while i < self.active_transactions.len()
            invariant
                i <= self.active_transactions@.len(),
                active == self.active_transactions.deep_view(),
                least == least_snapshot(active, i as int),
            decreases self.active_transactions@.len() - i,
        {
            assert(active[i as int].1 == self.active_transactions@[i as int].1);
            match self.active_transactions[i].1.snapshot {
                None => {},
                Some(s) => match least {
                    None => {
                        least = Some(s);
                    },
                    Some(b) => {
                        if s < b {
                            least = Some(s);
                        }
                    },
                },
            }
            i += 1;
        }
        assert(active.len() == self.active_transactions@.len());
        least
    }

    /// Drops the versions that no transaction can see.
    pub fn purge_old_versions(&mut self)
        ensures
            final(self)@ == purged_tables(old(self)@),
    {
        let least = self.oldest();
        let ghost m = self@;
        let ghost before = self.tables.deep_view();
        let ghost target = purged_tables(m).tables;
        let mut i: usize = 0;
        while i < self.tables.len()
            invariant
                i <= self.tables@.len(),
                least == oldest_snapshot(m),
                m.tables == before,
                before.len() == self.tables@.len(),
                target == purged_tables(m).tables,
                self.next_transaction_id == m.next_transaction_id,
                self.next_commit_id == m.next_commit_id,
                self.active_transactions.deep_view() == m.active,
                forall|j: int| 0 <= j < i ==> (#[trigger] self.tables.deep_view()[j]) == target[j],
                forall|j: int|
                    i <= j < before.len() ==> (#[trigger] self.tables.deep_view()[j]) == before[j],
            decreases self.tables@.len() - i,
        {
            let ghost prior = self.tables.deep_view();
            assert(prior[i as int] == before[i as int]);
            assert(prior[i as int] == (
                self.tables@[i as int].0@,
                self.tables@[i as int].1@,
                self.tables@[i as int].2@,
            ));
            self.tables[i].2.purge(least);
            assert(self.tables.deep_view() =~= prior.update(i as int, target[i as int]));
            i += 1;
        }
        assert(self.tables.deep_view() =~= target);
    }
}

// ---------------------------------------------------------------------------------------------
// Laws
// ---------------------------------------------------------------------------------------------
/// Whether the versions of a row follow its commits.
pub open spec fn ordered(v: VersionsModel, id: u64) -> bool {
    let chain = chain_of(v, id);
    &&& forall|i: int, j: int|
        #![trigger chain[i], chain[j]]
        0 <= i <= j < chain.len() ==> chain[i].commit_id <= chain[j].commit_id
    &&& forall|i: int| 0 <= i < chain.len() ==> (#[trigger] chain[i]).commit_id <= commit_of(v, id)
}

proof fn latest_of_push(
    chain: Seq<VersionModel>,
    x: VersionModel,
    snapshot: CommitId,
    at: int,
    best: Option<VersionModel>,
)
    requires
        0 <= at <= chain.len(),
    ensures
        ({
            let b = latest_from(chain, snapshot, at, best);
            latest_from(chain.push(x), snapshot, at, best) == (if x.commit_id <= snapshot && (
            b is None || x.commit_id >= (b->0).commit_id) {
                Some(x)
            } else {
                b
            })
        }),
    decreases chain.len() - at,
{
    let longer = chain.push(x);
    if at < chain.len() {
        assert(longer[at] == chain[at]);
        let next = if chain[at].commit_id <= snapshot && (best is None || chain[at].commit_id
            >= (best->0).commit_id) {
            Some(chain[at])
        } else {
            best
        };
        latest_of_push(chain, x, snapshot, at + 1, next);
    } else {
        assert(longer[at] == x);
        reveal_with_fuel(latest_from, 2);
    }
}

proof fn latest_is_bounded(
    chain: Seq<VersionModel>,
    snapshot: CommitId,
    at: int,
    best: Option<VersionModel>,
    bound: CommitId,
)
    requires
        0 <= at <= chain.len(),
        forall|i: int| 0 <= i < chain.len() ==> (#[trigger] chain[i]).commit_id <= bound,
        best is Some ==> (best->0).commit_id <= bound,
    ensures
        latest_from(chain, snapshot, at, best) matches Some(b) ==> b.commit_id <= bound,
    decreases chain.len() - at,
{
    if at < chain.len() {
        let next = if chain[at].commit_id <= snapshot && (best is None || chain[at].commit_id
            >= (best->0).commit_id) {
            Some(chain[at])
        } else {
            best
        };
        latest_is_bounded(chain, snapshot, at + 1, next, bound);
    }
}

/// A commit that came after a snapshot does not change what the snapshot sees of a row. A row
/// that the commit brings must have an id that no row had before.
pub proof fn later_commit_is_invisible(
    v: VersionsModel,
    id: u64,
    old_row: Option<RowModel>,
    new_row: Option<RowModel>,
    commit: CommitId,
    snapshot: CommitId,
)
    requires
        commit > snapshot,
        ordered(v, id),
        old_row is None && new_row is Some ==> chain_of(v, id).len() == 0,
    ensures
        version(recorded(v, id, old_row, new_row, commit), id, new_row, snapshot) == version(
            v,
            id,
            old_row,
            snapshot,
        ),
{
    let after = recorded(v, id, old_row, new_row, commit);
    let chain = chain_of(v, id);
    if old_row == new_row {
        if ids::value(v.current, id) is None {
            ids::set_then_value(v.current, id, 0, id);
            assert(ids::with_value(v.current, id, 0) == v.current.push((id, 0)));
        }
    } else {
        ids::set_then_value(v.current, id, commit, id);
        match old_row {
            None => {},
            Some(row) => {
                let x = VersionModel { commit_id: commit_of(v, id), row: row };
                ids::set_then_value(v.history, id, chain.push(x), id);
                latest_of_push(chain, x, snapshot, 0, None);
                latest_is_bounded(chain, snapshot, 0, None, commit_of(v, id));
            },
        }
    }
}

/// A commit of one row leaves the others as they were.
pub proof fn other_rows_keep_versions(
    v: VersionsModel,
    id: u64,
    old_row: Option<RowModel>,
    new_row: Option<RowModel>,
    commit: CommitId,
    other: u64,
)
    requires
        other != id,
    ensures
        commit_of(recorded(v, id, old_row, new_row, commit), other) == commit_of(v, other),
        chain_of(recorded(v, id, old_row, new_row, commit), other) == chain_of(v, other),
{
    if old_row == new_row {
        if ids::value(v.current, id) is None {
            ids::set_then_value(v.current, id, 0, other);
            assert(ids::with_value(v.current, id, 0) == v.current.push((id, 0)));
        }
    } else {
        ids::set_then_value(v.current, id, commit, other);
        match old_row {
            None => {},
            Some(row) => {
                let x = VersionModel { commit_id: commit_of(v, id), row: row };
                ids::set_then_value(v.history, id, chain_of(v, id).push(x), other);
            },
        }
    }
}

/// Commits in increasing order keep versions in order.
pub proof fn recording_keeps_order(
    v: VersionsModel,
    id: u64,
    old_row: Option<RowModel>,
    new_row: Option<RowModel>,
    commit: CommitId,
)
    requires
        ordered(v, id),
        commit_of(v, id) <= commit,
    ensures
        ordered(recorded(v, id, old_row, new_row, commit), id),
{
    let after = recorded(v, id, old_row, new_row, commit);
    if old_row == new_row {
        if ids::value(v.current, id) is None {
            ids::set_then_value(v.current, id, 0, id);
            assert(ids::with_value(v.current, id, 0) == v.current.push((id, 0)));
        }
        assert(commit_of(after, id) == commit_of(v, id));
        assert(chain_of(after, id) == chain_of(v, id));
    } else {
        ids::set_then_value(v.current, id, commit, id);
        match old_row {
            None => {
                let chain = chain_of(v, id);
                assert(chain_of(after, id) == chain);
                assert forall|i: int| 0 <= i < chain.len() implies (#[trigger] chain[i]).commit_id
                    <= commit_of(after, id) by {
                    assert(chain[i].commit_id <= commit_of(v, id));
                }
            },
            Some(row) => {
                let chain = chain_of(v, id);
                let x = VersionModel { commit_id: commit_of(v, id), row: row };
                ids::set_then_value(v.history, id, chain.push(x), id);
                assert(chain_of(after, id) == chain.push(x));
                assert forall|i: int, j: int|
                    #![trigger chain.push(x)[i], chain.push(x)[j]]
                    0 <= i <= j < chain.push(x).len() implies chain.push(x)[i].commit_id
                    <= chain.push(x)[j].commit_id by {
                    if j < chain.len() {
                        assert(chain[i].commit_id <= chain[j].commit_id);
                    } else if i < chain.len() {
                        assert(chain[i].commit_id <= commit_of(v, id));
                    }
                }
                assert forall|i: int| 0 <= i < chain.push(x).len() implies (
                #[trigger] chain.push(x)[i]).commit_id <= commit_of(after, id) by {
                    if i < chain.len() {
                        assert(chain[i].commit_id <= commit_of(v, id));
                    }
                }
            },
        }
    }
}

/// The ids of rows are those of the rows, each once.
pub proof fn ids_hold(rows: Seq<RowModel>, at: int, done: Seq<u64>, id: u64)
    requires
        0 <= at <= rows.len(),
        done.no_duplicates(),
    ensures
        ids_from(rows, at, done).no_duplicates(),
        ids_from(rows, at, done).contains(id) <==> done.contains(id) || (id != 0 && exists|i: int|
            at <= i < rows.len() && (#[trigger] rows[i]).row_id == id),
    decreases rows.len() - at,
{
    if at < rows.len() {
        let fresh = rows[at].row_id != 0 && !done.contains(rows[at].row_id);
        let next = if fresh {
            done.push(rows[at].row_id)
        } else {
            done
        };
        crate::seqs::push_holds(done, rows[at].row_id, id);
        ids_hold(rows, at + 1, next, id);
    }
}

proof fn row_upto_means(rows: Seq<RowModel>, id: u64, n: int)
    requires
        0 <= n <= rows.len(),
    ensures
        row_upto(rows, id, n) is Some <==> exists|i: int|
            0 <= i < n && (#[trigger] rows[i]).row_id == id,
    decreases n,
{
    if n > 0 {
        row_upto_means(rows, id, n - 1);
        if rows[n - 1].row_id == id {
        }
    }
}

/// What a snapshot sees of a table does not change with a later commit of the whole table.
pub proof fn later_table_commit_is_invisible(
    v: VersionsModel,
    before: Seq<RowModel>,
    after: Seq<RowModel>,
    commit: CommitId,
    snapshot: CommitId,
    id: u64,
)
    requires
        commit > snapshot,
        id != 0,
        ordered(v, id),
        row_of(before, id) is None && row_of(after, id) is Some ==> chain_of(v, id).len() == 0,
    ensures
        version(
            recorded_from(v, changed_ids(before, after), 0, before, after, commit),
            id,
            row_of(after, id),
            snapshot,
        ) == version(v, id, row_of(before, id), snapshot),
{
    let first = ids_from(before, 0, Seq::empty());
    let list = changed_ids(before, after);
    ids_hold(before, 0, Seq::empty(), id);
    ids_hold(after, 0, first, id);
    row_upto_means(before, id, before.len() as int);
    row_upto_means(after, id, after.len() as int);
    table_commit_by_ids(v, list, 0, before, after, commit, snapshot, id);
    if !list.contains(id) {
        assert(row_of(before, id) is None && row_of(after, id) is None);
    }
}

proof fn table_commit_by_ids(
    v: VersionsModel,
    list: Seq<u64>,
    at: int,
    before: Seq<RowModel>,
    after: Seq<RowModel>,
    commit: CommitId,
    snapshot: CommitId,
    id: u64,
)
    requires
        commit > snapshot,
        0 <= at <= list.len(),
        list.no_duplicates(),
        ordered(v, id),
        row_of(before, id) is None && row_of(after, id) is Some ==> chain_of(v, id).len() == 0,
    ensures
        (exists|i: int| at <= i < list.len() && list[i] == id) ==> version(
            recorded_from(v, list, at, before, after, commit),
            id,
            row_of(after, id),
            snapshot,
        ) == version(v, id, row_of(before, id), snapshot),
        !(exists|i: int| at <= i < list.len() && list[i] == id) ==> commit_of(
            recorded_from(v, list, at, before, after, commit),
            id,
        ) == commit_of(v, id) && chain_of(
            recorded_from(v, list, at, before, after, commit),
            id,
        ) == chain_of(v, id),
    decreases list.len() - at,
{
    if at < list.len() {
        let x = list[at];
        let next = recorded(v, x, row_of(before, x), row_of(after, x), commit);
        if x == id {
            later_commit_is_invisible(
                v,
                id,
                row_of(before, id),
                row_of(after, id),
                commit,
                snapshot,
            );
            rest_keeps(next, list, at + 1, before, after, commit, id);
        } else {
            other_rows_keep_versions(v, x, row_of(before, x), row_of(after, x), commit, id);
            table_commit_by_ids(next, list, at + 1, before, after, commit, snapshot, id);
            if exists|i: int| at <= i < list.len() && list[i] == id {
                let i = choose|i: int| at <= i < list.len() && list[i] == id;
                assert(at + 1 <= i && list[i] == id);
            }
        }
    }
}

proof fn rest_keeps(
    v: VersionsModel,
    list: Seq<u64>,
    at: int,
    before: Seq<RowModel>,
    after: Seq<RowModel>,
    commit: CommitId,
    id: u64,
)
    requires
        0 <= at <= list.len(),
        forall|i: int| at <= i < list.len() ==> list[i] != id,
    ensures
        commit_of(recorded_from(v, list, at, before, after, commit), id) == commit_of(v, id),
        chain_of(recorded_from(v, list, at, before, after, commit), id) == chain_of(v, id),
    decreases list.len() - at,
{
    if at < list.len() {
        let x = list[at];
        let next = recorded(v, x, row_of(before, x), row_of(after, x), commit);
        other_rows_keep_versions(v, x, row_of(before, x), row_of(after, x), commit, id);
        rest_keeps(next, list, at + 1, before, after, commit, id);
    }
}

proof fn latest_skips(
    chain: Seq<VersionModel>,
    snapshot: CommitId,
    from: int,
    at: int,
    best: Option<VersionModel>,
)
    requires
        0 <= from <= at <= chain.len(),
    ensures
        latest_from(chain, snapshot, at, best) == latest_from(
            chain.skip(from),
            snapshot,
            at - from,
            best,
        ),
    decreases chain.len() - at,
{
    if at < chain.len() {
        assert(chain.skip(from)[at - from] == chain[at]);
        let next = if chain[at].commit_id <= snapshot && (best is None || chain[at].commit_id
            >= (best->0).commit_id) {
            Some(chain[at])
        } else {
            best
        };
        latest_skips(chain, snapshot, from, at + 1, next);
    }
}

proof fn latest_ignores_earlier(
    chain: Seq<VersionModel>,
    snapshot: CommitId,
    from: int,
    at: int,
    best: Option<VersionModel>,
)
    requires
        0 <= at <= from < chain.len(),
        chain[from].commit_id <= snapshot,
        forall|i: int| 0 <= i <= from ==> (#[trigger] chain[i]).commit_id <= chain[from].commit_id,
        best is Some ==> (best->0).commit_id <= chain[from].commit_id,
    ensures
        latest_from(chain, snapshot, at, best) == latest_from(
            chain,
            snapshot,
            from + 1,
            Some(chain[from]),
        ),
    decreases from - at,
{
    let next = if chain[at].commit_id <= snapshot && (best is None || chain[at].commit_id
        >= (best->0).commit_id) {
        Some(chain[at])
    } else {
        best
    };
    if at < from {
        latest_ignores_earlier(chain, snapshot, from, at + 1, next);
    }
}

/// Dropping versions that the oldest snapshot cannot need changes nothing for it and for later
/// ones.
pub proof fn purging_keeps_what_is_seen(
    chain: Seq<VersionModel>,
    oldest: CommitId,
    snapshot: CommitId,
)
    requires
        oldest <= snapshot,
        forall|i: int, j: int|
            #![trigger chain[i], chain[j]]
            0 <= i <= j < chain.len() ==> chain[i].commit_id <= chain[j].commit_id,
    ensures
        latest_at(purged(chain, oldest), snapshot) == latest_at(chain, snapshot),
{
    let n = chain.len() as int;
    let k = kept_from(chain, oldest, n);
    kept_in_chain(chain, oldest, n);
    if k == 0 {
        assert(chain.skip(0) =~= chain);
    } else {
        kept_is_seen(chain, oldest, n);
        latest_ignores_earlier(chain, snapshot, k, 0, None);
        latest_skips(chain, snapshot, k, k, None);
        let rest = chain.skip(k);
        assert(rest[0] == chain[k]);
        latest_skips(chain, snapshot, k, k + 1, Some(chain[k]));
        assert(latest_from(rest, snapshot, 0, None) == latest_from(
            rest,
            snapshot,
            1,
            Some(chain[k]),
        ));
    }
}

proof fn kept_is_seen(chain: Seq<VersionModel>, snapshot: CommitId, n: int)
    requires
        0 <= n <= chain.len(),
    ensures
        kept_from(chain, snapshot, n) > 0 ==> chain[kept_from(chain, snapshot, n)].commit_id
            <= snapshot,
    decreases n,
{
    if n > 0 && chain[n - 1].commit_id > snapshot {
        kept_is_seen(chain, snapshot, n - 1);
    }
}

/// The oldest snapshot is no later than that of any transaction.
pub proof fn oldest_snapshot_is_least(m: MvccModel, i: int)
    requires
        0 <= i < m.active.len(),
        m.active[i].1.snapshot is Some,
    ensures
        oldest_snapshot(m) is Some,
        oldest_snapshot(m)->0 <= m.active[i].1.snapshot->0,
{
    least_is_least(m.active, m.active.len() as int, i);
}

proof fn least_is_least(active: Seq<(u64, ActiveTransaction)>, n: int, i: int)
    requires
        0 <= i < n <= active.len(),
        active[i].1.snapshot is Some,
    ensures
        least_snapshot(active, n) is Some,
        least_snapshot(active, n)->0 <= active[i].1.snapshot->0,
    decreases n,
{
    if i < n - 1 {
        least_is_least(active, n - 1, i);
    }
}

/// A transaction of a repeating level that has read keeps its snapshot, whatever is committed
/// between.
pub proof fn repeatable_reads_repeat(m: MvccModel, later: MvccModel, t: ActiveTransaction)
    requires
        repeats(t.isolation),
    ensures
        snapshot_of(later, having_read(m, t)) == snapshot_of(m, t),
{
}

/// A transaction that reads what is committed sees every commit so far.
pub proof fn committed_reads_are_fresh(m: MvccModel, t: ActiveTransaction)
    requires
        !repeats(t.isolation),
    ensures
        snapshot_of(m, t) == last_commit(m),
{
}

} // verus!
