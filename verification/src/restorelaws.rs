//! What a restore of a backup chain brings back.
use crate::backup;
use crate::backup::{BackupModel, GroupTime, RestoreStep};
use vstd::prelude::*;

verus! {

pub type TimesModel = Seq<Result<i64, Seq<char>>>;

pub type ArchivesModel = Seq<Result<Seq<GroupTime>, Seq<char>>>;

/// Whether the `i`-th backup was made by a time.
pub open spec fn made_by(created: TimesModel, i: int, t: int) -> bool {
    created[i] matches Ok(m) && 0 <= m <= t
}

/// Whether a group was committed by a time.
pub open spec fn committed_by(g: GroupTime, t: int) -> bool {
    g.committed matches Some(c) && c <= t
}

/// Whether all that the `i`-th backup holds was there by a time.
pub open spec fn whole_by(created: TimesModel, archives: ArchivesModel, i: int, t: int) -> bool {
    made_by(created, i, t) || (archives[i - 1] matches Ok(groups) && forall|j: int|
        0 <= j < groups.len() ==> committed_by(#[trigger] groups[j], t))
}

/// Whether each increment begins where the backup before it ends, and its groups lie, in rising
/// order, between its two ends.
pub open spec fn linked(chain: Seq<BackupModel>, archives: ArchivesModel) -> bool {
    &&& forall|i: int|
        1 <= i < chain.len() ==> (#[trigger] chain[i]).from_lsn == chain[i - 1].to_lsn
            && chain[i].from_lsn <= chain[i].to_lsn
    &&& forall|i: int|
        1 <= i < chain.len() ==> (archives[i - 1] matches Ok(groups) ==> rising(
            groups,
            (#[trigger] chain[i]).from_lsn,
            chain[i].to_lsn,
        ))
}

pub open spec fn rising(groups: Seq<GroupTime>, from: u64, to: u64) -> bool {
    &&& forall|j: int| 0 <= j < groups.len() ==> from < (#[trigger] groups[j]).lsn <= to
    &&& forall|j: int, k: int|
        0 <= j < k < groups.len() ==> (#[trigger] groups[j]).lsn < (#[trigger] groups[k]).lsn
}

proof fn ends_rise(chain: Seq<BackupModel>, archives: ArchivesModel, a: int, b: int)
    requires
        linked(chain, archives),
        0 <= a <= b < chain.len(),
    ensures
        chain[a].to_lsn <= chain[b].to_lsn,
        a < b ==> chain[a].to_lsn <= chain[b].from_lsn,
    decreases b - a,
{
    if a < b {
        ends_rise(chain, archives, a, b - 1);
        assert(chain[b].from_lsn == chain[b - 1].to_lsn);
    }
}

/// Where a walk over the groups of one increment ends.
proof fn groups_end(groups: Seq<GroupTime>, t: u64, lsn: u64, at: int, from: u64, to: u64)
    requires
        0 <= at <= groups.len(),
        rising(groups, from, to),
        at == 0 ==> lsn <= from,
        at > 0 ==> lsn == groups[at - 1].lsn,
        backup::groups_by(groups, t, lsn, at) is Ok,
    ensures
        ({
            let (last, stopped) = backup::groups_by(groups, t, lsn, at)->Ok_0;
            &&& lsn <= last
            &&& last <= to || last == lsn
            &&& stopped ==> exists|j: int|
                at <= j < groups.len() && !committed_by(#[trigger] groups[j], t as int)
            &&& !stopped ==> forall|j: int|
                at <= j < groups.len() ==> committed_by(#[trigger] groups[j], t as int)
            &&& forall|j: int|
                at <= j < groups.len() && (#[trigger] groups[j]).committed is Some && !committed_by(
                    groups[j],
                    t as int,
                ) ==> last < groups[j].lsn
            &&& forall|j: int|
                at <= j < groups.len() && (forall|i: int|
                    at <= i <= j ==> committed_by(#[trigger] groups[i], t as int)) ==> (
                #[trigger] groups[j]).lsn <= last
        }),
    decreases groups.len() - at,
{
    if at < groups.len() && groups[at].committed is Some {
        if groups[at].committed->0 <= t {
            assert(committed_by(groups[at], t as int));
            groups_end(groups, t, groups[at].lsn, at + 1, from, to);
            let (last, stopped) = backup::groups_by(groups, t, lsn, at)->Ok_0;
            assert forall|j: int|
                at <= j < groups.len() && (forall|i: int|
                    at <= i <= j ==> committed_by(
                        #[trigger] groups[i],
                        t as int,
                    )) implies (#[trigger] groups[j]).lsn <= last by {
                if j > at {
                    assert(forall|i: int|
                        at + 1 <= i <= j ==> committed_by(#[trigger] groups[i], t as int));
                }
            }
            if stopped {
                let j = choose|j: int|
                    at + 1 <= j < groups.len() && !committed_by(#[trigger] groups[j], t as int);
                assert(at <= j && !committed_by(groups[j], t as int));
            }
        } else {
            assert(!committed_by(groups[at], t as int));
            assert forall|j: int|
                at <= j < groups.len() && (#[trigger] groups[j]).committed is Some && !committed_by(
                    groups[j],
                    t as int,
                ) implies lsn < groups[j].lsn by {
                if at > 0 {
                    assert(groups[at - 1].lsn < groups[j].lsn);
                }
            }
        }
    }
}

/// Where a restore of the backups from the `at`-th on ends.
#[verifier::rlimit(40)]
proof fn walk_end(
    chain: Seq<BackupModel>,
    created: TimesModel,
    archives: ArchivesModel,
    t: u64,
    lsn: u64,
    at: int,
)
    requires
        1 <= at <= chain.len(),
        created.len() == chain.len(),
        linked(chain, archives),
        lsn <= chain[at - 1].to_lsn,
        backup::target_from(chain, created, archives, t, lsn, at) is Ok,
    ensures
        ({
            let end = backup::target_from(chain, created, archives, t, lsn, at)->Ok_0;
            &&& lsn <= end <= chain.last().to_lsn
            &&& forall|k: int|
                at <= k < chain.len() && made_by(created, k, t as int) && (forall|i: int|
                    at <= i < k ==> #[trigger] whole_by(created, archives, i, t as int)) ==> (
                #[trigger] chain[k]).to_lsn <= end
            &&& forall|i: int, j: int|
                #![trigger (archives[i - 1]->Ok_0)[j]]
                at <= i < chain.len() && !made_by(created, i, t as int) && archives[i - 1] is Ok && 0
                    <= j < (archives[i - 1]->Ok_0).len() && (archives[i - 1]->Ok_0)[j].committed is Some
                    && !committed_by((archives[i - 1]->Ok_0)[j], t as int) ==> end < (archives[i
                    - 1]->Ok_0)[j].lsn
            &&& forall|i: int, j: int|
                #![trigger (archives[i - 1]->Ok_0)[j]]
                at <= i < chain.len() && (forall|k: int|
                    at <= k < i ==> #[trigger] whole_by(created, archives, k, t as int))
                    && !made_by(created, i, t as int) && archives[i - 1] is Ok && 0 <= j < (archives[i
                    - 1]->Ok_0).len() && (forall|k: int|
                    0 <= k <= j ==> committed_by(#[trigger] (archives[i - 1]->Ok_0)[k], t as int))
                    ==> (archives[i - 1]->Ok_0)[j].lsn <= end
        }),
    decreases chain.len() - at,
{
    if at < chain.len() {
        let end = backup::target_from(chain, created, archives, t, lsn, at)->Ok_0;
        assert(chain[at].from_lsn == chain[at - 1].to_lsn);
        ends_rise(chain, archives, at, chain.len() - 1);
        if made_by(created, at, t as int) {
            walk_end(chain, created, archives, t, chain[at].to_lsn, at + 1);
        } else {
            let groups = archives[at - 1]->Ok_0;
            groups_end(groups, t, lsn, 0, chain[at].from_lsn, chain[at].to_lsn);
            let (last, stopped) = backup::groups_by(groups, t, lsn, 0)->Ok_0;
            if stopped {
                assert(!whole_by(created, archives, at, t as int));
                assert forall|i: int, j: int|
                    #![trigger (archives[i - 1]->Ok_0)[j]]
                    at < i < chain.len() && archives[i - 1] is Ok && 0 <= j < (archives[i
                        - 1]->Ok_0).len() implies end < (archives[i - 1]->Ok_0)[j].lsn by {
                    ends_rise(chain, archives, at, i);
                    assert(rising(archives[i - 1]->Ok_0, chain[i].from_lsn, chain[i].to_lsn));
                }
            } else {
                walk_end(chain, created, archives, t, last, at + 1);
            }
        }
    }
}

/// A restore to a time ends no earlier than any backup that was made by that time, where all the
/// backups before it were.
pub proof fn backups_made_in_time_are_restored(
    chain: Seq<BackupModel>,
    created: TimesModel,
    archives: ArchivesModel,
    t: i64,
    k: int,
)
    requires
        created.len() == chain.len(),
        linked(chain, archives),
        0 <= k < chain.len(),
        forall|i: int| 0 <= i <= k ==> #[trigger] made_by(created, i, t as int),
        backup::restore_target(chain, Some(Ok(t)), created, archives) is Ok,
    ensures
        chain[k].to_lsn <= backup::restore_target(chain, Some(Ok(t)), created, archives)->Ok_0,
        backup::restore_target(chain, Some(Ok(t)), created, archives)->Ok_0 <= chain.last().to_lsn,
{
    walk_end(chain, created, archives, t as u64, chain[0].to_lsn, 1);
    assert(made_by(created, k, t as int));
    assert forall|i: int| 1 <= i < k implies #[trigger] whole_by(created, archives, i, t as int) by {
        assert(made_by(created, i, t as int));
    }
}

/// Where every backup of a chain was made by a time, a restore to that time ends where the chain
/// ends.
pub proof fn a_late_time_restores_the_chain(
    chain: Seq<BackupModel>,
    created: TimesModel,
    archives: ArchivesModel,
    t: i64,
)
    requires
        chain.len() > 0,
        created.len() == chain.len(),
        forall|i: int| 0 <= i < chain.len() ==> #[trigger] made_by(created, i, t as int),
    ensures
        backup::restore_target(chain, Some(Ok(t)), created, archives) == Ok::<u64, Seq<char>>(
            chain.last().to_lsn,
        ),
{
    assert(made_by(created, 0, t as int));
    late_walk(chain, created, archives, t as u64, chain[0].to_lsn, 1);
}

proof fn late_walk(
    chain: Seq<BackupModel>,
    created: TimesModel,
    archives: ArchivesModel,
    t: u64,
    lsn: u64,
    at: int,
)
    requires
        1 <= at <= chain.len(),
        lsn == chain[at - 1].to_lsn,
        forall|i: int| 0 <= i < chain.len() ==> #[trigger] made_by(created, i, t as int),
    ensures
        backup::target_from(chain, created, archives, t, lsn, at) == Ok::<u64, Seq<char>>(
            chain.last().to_lsn,
        ),
    decreases chain.len() - at,
{
    if at < chain.len() {
        assert(made_by(created, at, t as int));
        late_walk(chain, created, archives, t, chain[at].to_lsn, at + 1);
    }
}

/// A restore to a time takes every group that was committed by that time, where all that stands
/// before it in the chain was there by that time.
pub proof fn groups_committed_in_time_are_restored(
    chain: Seq<BackupModel>,
    created: TimesModel,
    archives: ArchivesModel,
    t: i64,
    i: int,
    j: int,
)
    requires
        created.len() == chain.len(),
        linked(chain, archives),
        1 <= i < chain.len(),
        forall|k: int| 1 <= k < i ==> #[trigger] whole_by(created, archives, k, t as int),
        archives[i - 1] is Ok,
        0 <= j < (archives[i - 1]->Ok_0).len(),
        forall|k: int|
            0 <= k <= j ==> committed_by(#[trigger] (archives[i - 1]->Ok_0)[k], t as int),
        backup::restore_target(chain, Some(Ok(t)), created, archives) is Ok,
    ensures
        (archives[i - 1]->Ok_0)[j].lsn <= backup::restore_target(
            chain,
            Some(Ok(t)),
            created,
            archives,
        )->Ok_0,
{
    walk_end(chain, created, archives, t as u64, chain[0].to_lsn, 1);
    let g = (archives[i - 1]->Ok_0)[j];
    if made_by(created, i, t as int) {
        assert(rising(archives[i - 1]->Ok_0, chain[i].from_lsn, chain[i].to_lsn));
        assert(g.lsn <= chain[i].to_lsn);
    }
}

/// A restore to a time takes no group that was committed later, of an increment that was made
/// later.
pub proof fn later_groups_are_not_restored(
    chain: Seq<BackupModel>,
    created: TimesModel,
    archives: ArchivesModel,
    t: i64,
    i: int,
    j: int,
)
    requires
        created.len() == chain.len(),
        linked(chain, archives),
        1 <= i < chain.len(),
        !made_by(created, i, t as int),
        archives[i - 1] is Ok,
        0 <= j < (archives[i - 1]->Ok_0).len(),
        (archives[i - 1]->Ok_0)[j].committed is Some,
        (archives[i - 1]->Ok_0)[j].committed->0 > t,
        backup::restore_target(chain, Some(Ok(t)), created, archives) is Ok,
    ensures
        backup::restore_target(chain, Some(Ok(t)), created, archives)->Ok_0 < (archives[i
            - 1]->Ok_0)[j].lsn,
{
    walk_end(chain, created, archives, t as u64, chain[0].to_lsn, 1);
    let g = (archives[i - 1]->Ok_0)[j];
    assert(!committed_by(g, t as int));
}

/// Before the full backup there is nothing to restore, and behind it there is: a restore to a time
/// is refused where the full backup was made later, and otherwise only where a time or an archive
/// cannot be read.
pub proof fn a_time_before_the_full_backup_is_refused(
    chain: Seq<BackupModel>,
    created: TimesModel,
    archives: ArchivesModel,
    t: i64,
)
    requires
        chain.len() > 0,
        created.len() == chain.len(),
        created[0] is Ok,
        created[0]->Ok_0 >= 0,
    ensures
        t < created[0]->Ok_0 ==> backup::restore_target(chain, Some(Ok(t)), created, archives) is Err,
        t >= created[0]->Ok_0 && (forall|i: int| 1 <= i < chain.len() ==> #[trigger] created[i] is Ok)
            && (forall|i: int|
            0 <= i < chain.len() - 1 ==> (#[trigger] archives[i]) is Ok && forall|j: int|
                0 <= j < (archives[i]->Ok_0).len() ==> (
                #[trigger] (archives[i]->Ok_0)[j]).committed is Some) ==> backup::restore_target(
            chain,
            Some(Ok(t)),
            created,
            archives,
        ) is Ok,
{
    if t >= created[0]->Ok_0 && (forall|i: int| 1 <= i < chain.len() ==> #[trigger] created[i] is Ok)
        && (forall|i: int|
        0 <= i < chain.len() - 1 ==> (#[trigger] archives[i]) is Ok && forall|j: int|
            0 <= j < (archives[i]->Ok_0).len() ==> (
            #[trigger] (archives[i]->Ok_0)[j]).committed is Some) {
        readable_walk(chain, created, archives, t as u64, chain[0].to_lsn, 1);
    }
}

proof fn readable_groups(groups: Seq<GroupTime>, t: u64, lsn: u64, at: int)
    requires
        forall|j: int| 0 <= j < groups.len() ==> (#[trigger] groups[j]).committed is Some,
    ensures
        backup::groups_by(groups, t, lsn, at) is Ok,
    decreases groups.len() - at,
{
    if 0 <= at < groups.len() {
        readable_groups(groups, t, groups[at].lsn, at + 1);
    }
}

proof fn readable_walk(
    chain: Seq<BackupModel>,
    created: TimesModel,
    archives: ArchivesModel,
    t: u64,
    lsn: u64,
    at: int,
)
    requires
        1 <= at <= chain.len(),
        forall|i: int| 1 <= i < chain.len() ==> #[trigger] created[i] is Ok,
        forall|i: int|
            0 <= i < chain.len() - 1 ==> (#[trigger] archives[i]) is Ok && forall|j: int|
                0 <= j < (archives[i]->Ok_0).len() ==> (
                #[trigger] (archives[i]->Ok_0)[j]).committed is Some,
    ensures
        backup::target_from(chain, created, archives, t, lsn, at) is Ok,
    decreases chain.len() - at,
{
    if at < chain.len() {
        assert(created[at] is Ok);
        if made_by(created, at, t as int) {
            readable_walk(chain, created, archives, t, chain[at].to_lsn, at + 1);
        } else {
            assert(archives[at - 1] is Ok);
            readable_groups(archives[at - 1]->Ok_0, t, lsn, 0);
            let (last, _) = backup::groups_by(archives[at - 1]->Ok_0, t, lsn, 0)->Ok_0;
            readable_walk(chain, created, archives, t, last, at + 1);
        }
    }
}

// ---------------------------------------------------------------------------------------------
// The steps of a restore
// ---------------------------------------------------------------------------------------------
/// Where a step leaves the log.
pub open spec fn step_end(chain: Seq<BackupModel>, step: RestoreStep) -> u64 {
    match step.upto {
        Some(lsn) => lsn,
        None => chain[step.index as int].to_lsn,
    }
}

/// Whether steps lead without a gap from one place of the log to another: each takes up the log
/// where the one before left it, at the beginning of its increment, and ends inside it.
pub open spec fn lead(chain: Seq<BackupModel>, steps: Seq<RestoreStep>, from: u64, to: u64) -> bool
    decreases steps.len(),
{
    if steps.len() == 0 {
        from == to
    } else {
        let step = steps.last();
        &&& 1 <= step.index < chain.len()
        &&& step_end(chain, step) == to
        &&& chain[step.index as int].from_lsn < to <= chain[step.index as int].to_lsn
        &&& lead(chain, steps.drop_last(), from, chain[step.index as int].from_lsn)
    }
}

proof fn steps_lead(
    chain: Seq<BackupModel>,
    target: u64,
    start: u64,
    installed: u64,
    at: int,
    done: Seq<RestoreStep>,
)
    requires
        1 <= at <= chain.len() <= usize::MAX,
        forall|i: int|
            1 <= i < chain.len() ==> (#[trigger] chain[i]).from_lsn <= chain[i].to_lsn,
        lead(chain, done, start, installed),
        installed <= target,
        backup::steps_from(chain, target, installed, at, done) is Ok,
    ensures
        ({
            let (steps, reached) = backup::steps_from(chain, target, installed, at, done)->Ok_0;
            lead(chain, steps, start, reached)
        }),
    decreases chain.len() - at,
{
    if at < chain.len() {
        let m = chain[at];
        if target > m.from_lsn {
            if m.to_lsn == m.from_lsn {
                steps_lead(chain, target, start, installed, at + 1, done);
            } else if target < m.to_lsn {
                let step = RestoreStep { index: at as usize, upto: Some(target) };
                assert(done.push(step).drop_last() =~= done);
            } else {
                let step = RestoreStep { index: at as usize, upto: None };
                assert(done.push(step).drop_last() =~= done);
                steps_lead(chain, target, start, m.to_lsn, at + 1, done.push(step));
            }
        }
    }
}

/// The steps of a restore lead from the end of the full backup to the place that was asked for,
/// without a gap; to the end of the chain, where none was asked for.
pub proof fn restore_steps_lead_to_the_goal(
    chain: Seq<BackupModel>,
    installed: u64,
    target: Option<u64>,
)
    requires
        chain.len() <= usize::MAX,
        forall|i: int|
            1 <= i < chain.len() ==> (#[trigger] chain[i]).from_lsn <= chain[i].to_lsn,
        backup::restore_steps(chain, installed, target) is Ok,
    ensures
        installed == chain[0].to_lsn,
        lead(
            chain,
            backup::restore_steps(chain, installed, target)->Ok_0,
            chain[0].to_lsn,
            match target {
                Some(t) => t,
                None => chain.last().to_lsn,
            },
        ),
{
    let goal = match target {
        Some(t) => t,
        None => chain.last().to_lsn,
    };
    steps_lead(chain, goal, installed, installed, 1, Seq::empty());
}

/// A chain without gaps can be restored to every place between the end of its full backup and its
/// own end.
pub proof fn every_place_of_a_chain_can_be_restored(chain: Seq<BackupModel>, goal: u64)
    requires
        0 < chain.len() <= usize::MAX,
        forall|i: int|
            1 <= i < chain.len() ==> (#[trigger] chain[i]).from_lsn == chain[i - 1].to_lsn
                && chain[i].from_lsn <= chain[i].to_lsn,
        chain[0].to_lsn <= goal <= chain.last().to_lsn,
    ensures
        backup::restore_steps(chain, chain[0].to_lsn, Some(goal)) is Ok,
{
    goal_reached(chain, goal, 1, Seq::empty());
}

proof fn goal_reached(chain: Seq<BackupModel>, goal: u64, at: int, done: Seq<RestoreStep>)
    requires
        1 <= at <= chain.len(),
        forall|i: int|
            1 <= i < chain.len() ==> (#[trigger] chain[i]).from_lsn == chain[i - 1].to_lsn
                && chain[i].from_lsn <= chain[i].to_lsn,
        chain[at - 1].to_lsn <= goal <= chain.last().to_lsn,
    ensures
        backup::steps_from(chain, goal, chain[at - 1].to_lsn, at, done) is Ok,
        (backup::steps_from(chain, goal, chain[at - 1].to_lsn, at, done)->Ok_0).1 == goal,
    decreases chain.len() - at,
{
    if at < chain.len() {
        let m = chain[at];
        if goal > m.from_lsn {
            if m.to_lsn == m.from_lsn {
                goal_reached(chain, goal, at + 1, done);
            } else if goal >= m.to_lsn {
                goal_reached(
                    chain,
                    goal,
                    at + 1,
                    done.push(RestoreStep { index: at as usize, upto: None }),
                );
            }
        }
    }
}

} // verus!
