//! The write actor: gathers requests into groups, checks and applies a group, and decides when
//! staged rows go to pages.
use crate::apply;
use crate::batch;
use crate::commands;
use crate::commands::{CommandModel, WriteCommand, WriteResult};
use crate::database;
use crate::error;
use crate::error::{DbError, DbResult};
use crate::predicate;
use crate::predicate::{Context, ContextModel};
use crate::prepare;
use crate::replay;
use crate::schema;
use crate::store;
use crate::store::{Store, StoreModel};
use crate::text;
use crate::validate;
use crate::validate::KeysModel;
use vstd::prelude::*;

verus! {

/// The most requests that one group holds.
pub const MAX_GROUP_COMMIT_REQUESTS: usize = 128;

/// The number of groups after which staged rows go to pages.
pub const CHECKPOINT_GROUP_INTERVAL: u64 = 64;

/// Whether a group takes one more request.
pub fn group_has_room(pending: usize, deferred: bool) -> (r: bool)
    ensures
        r == (pending < MAX_GROUP_COMMIT_REQUESTS && !deferred),
{
    pending < MAX_GROUP_COMMIT_REQUESTS && !deferred
}

// ---------------------------------------------------------------------------------------------
// Requests and replies
// ---------------------------------------------------------------------------------------------
/// A write that waits for its group; `id` names who waits for the reply.
#[derive(Debug)]
pub struct WriteRequest {
    pub id: u64,
    pub commands: Vec<WriteCommand>,
    pub prepared: bool,
    pub last_insert_id: u64,
}

#[verifier::ext_equal]
pub struct RequestModel {
    pub id: u64,
    pub commands: Seq<CommandModel>,
    pub prepared: bool,
    pub last_insert_id: u64,
}

impl View for WriteRequest {
    type V = RequestModel;

    open spec fn view(&self) -> RequestModel {
        RequestModel {
            id: self.id,
            commands: self.commands.deep_view(),
            prepared: self.prepared,
            last_insert_id: self.last_insert_id,
        }
    }
}

impl DeepView for WriteRequest {
    type V = RequestModel;

    open spec fn deep_view(&self) -> RequestModel {
        self@
    }
}

impl Clone for WriteRequest {
    fn clone(&self) -> (r: Self)
        ensures
            r@ == self@,
    {
        WriteRequest {
            id: self.id,
            commands: commands::copy_commands(&self.commands),
            prepared: self.prepared,
            last_insert_id: self.last_insert_id,
        }
    }
}

/// The outcome of one request.
#[derive(Debug)]
pub struct Reply {
    pub id: u64,
    pub outcome: DbResult<WriteResult>,
}

#[verifier::ext_equal]
pub struct ReplyModel {
    pub id: u64,
    pub outcome: Result<WriteResult, Seq<char>>,
}

impl View for Reply {
    type V = ReplyModel;

    open spec fn view(&self) -> ReplyModel {
        ReplyModel { id: self.id, outcome: error::outcome(self.outcome) }
    }
}

impl DeepView for Reply {
    type V = ReplyModel;

    open spec fn deep_view(&self) -> ReplyModel {
        self@
    }
}

fn push_reply(list: &mut Vec<Reply>, id: u64, outcome: DbResult<WriteResult>)
    ensures
        final(list).deep_view() == old(list).deep_view().push(
            ReplyModel { id: id, outcome: error::outcome(outcome) },
        ),
{
    let ghost before = list.deep_view();
    let reply = Reply { id: id, outcome: outcome };
    list.push(reply);
    assert(list.deep_view() =~= before.push(reply@));
}

// ---------------------------------------------------------------------------------------------
// Inserts against the keys of their group
// ---------------------------------------------------------------------------------------------
/// The keys that a group brings once the inserts from the `at`-th on have joined it.
pub open spec fn inserts_added(
    keys: KeysModel,
    list: Seq<CommandModel>,
    s: StoreModel,
    at: int,
) -> Result<KeysModel, Seq<char>>
    decreases list.len() - at,
{
    if at < 0 || at >= list.len() {
        Ok(keys)
    } else {
        match list[at] {
            CommandModel::Insert { database, table, row } => match store::database_of(s, database) {
                None => Err(store::unknown_database(database)),
                Some(db) => match database::table_of(db, table) {
                    None => Err(database::no_table(table)),
                    Some(t) => match validate::keys_added(
                        keys,
                        row,
                        schema::keys(t.schema),
                        database,
                        table,
                        true,
                        s,
                        0,
                    ) {
                        Err(e) => Err(e),
                        Ok(more) => inserts_added(more, list, s, at + 1),
                    },
                },
            },
            _ => Err("incremental INSERT validation received non-INSERT command"@),
        }
    }
}

/// Checks inserts against stored rows and against the keys of their group, and adds their keys.
pub fn validate_insert_commands_incremental(
    list: &Vec<WriteCommand>,
    s: &Store,
    keys: &mut Vec<(String, String, Vec<(String, Vec<Vec<u8>>)>)>,
) -> (r: DbResult<()>)
    requires
        s.wf(),
    ensures
        match inserts_added(old(keys).deep_view(), list.deep_view(), s@, 0) {
            Ok(more) => r is Ok && final(keys).deep_view() == more,
            Err(e) => r matches Err(m) && m.message@ == e && final(keys).deep_view() == old(
                keys,
            ).deep_view(),
        },
{
    let ghost all = list.deep_view();
    let ghost start = keys.deep_view();
    let ghost whole = inserts_added(start, all, s@, 0);
    let mut more = copy_keys(keys);
    let mut i: usize = 0;
    while i < list.len()
        invariant
            i <= list@.len(),
            s.wf(),
            all == list.deep_view(),
            keys.deep_view() == start,
            whole == inserts_added(start, all, s@, 0),
            start == old(keys).deep_view(),
            inserts_added(more.deep_view(), all, s@, i as int) == whole,
        decreases list@.len() - i,
    {
        assert(all[i as int] == list@[i as int]@);
        match &list[i] {
            WriteCommand::Insert { database, table, row } => {
                let db = match s.database(database.as_str()) {
                    None => {
                        return Err(store::unknown_database_error(database.as_str()));
                    },
                    Some(db) => db,
                };
                let found = match db.get_table(table.as_str()) {
                    None => {
                        return Err(database::no_table_error(table.as_str()));
                    },
                    Some(found) => found,
                };
                let constraints = schema::key_constraints(&found);
                match validate::add_keys(
                    &mut more,
                    row,
                    &constraints,
                    database.as_str(),
                    table.as_str(),
                    true,
                    s,
                ) {
                    Err(e) => {
                        return Err(e);
                    },
                    Ok(_) => {},
                }
            },
            _ => {
                return Err(
                    DbError::of("incremental INSERT validation received non-INSERT command"),
                );
            },
        }
        i += 1;
    }
    *keys = more;
    Ok(())
}

fn copy_key_lists(list: &Vec<(String, Vec<Vec<u8>>)>) -> (r: Vec<(String, Vec<Vec<u8>>)>)
    ensures
        r.deep_view() == list.deep_view(),
{
    let ghost target = list.deep_view();
    let mut out: Vec<(String, Vec<Vec<u8>>)> = Vec::new();
    let mut i: usize = 0;
    assert(out.deep_view() =~= target.take(0));
    while i < list.len()
        invariant
            i <= list@.len(),
            target == list.deep_view(),
            out.deep_view() == target.take(i as int),
        decreases list@.len() - i,
    {
        let ghost before = out.deep_view();
        let name = text::copy_text(list[i].0.as_str());
        let keys = predicate::copy_byte_strings(&list[i].1);
        out.push((name, keys));
        assert(out.deep_view() =~= before.push(target[i as int]));
        assert(target.take(i + 1) =~= target.take(i as int).push(target[i as int]));
        i += 1;
    }
    assert(target.take(i as int) =~= target);
    out
}

fn copy_keys(list: &Vec<(String, String, Vec<(String, Vec<Vec<u8>>)>)>) -> (r: Vec<
    (String, String, Vec<(String, Vec<Vec<u8>>)>),
>)
    ensures
        r.deep_view() == list.deep_view(),
{
    let ghost target = list.deep_view();
    let mut out: Vec<(String, String, Vec<(String, Vec<Vec<u8>>)>)> = Vec::new();
    let mut i: usize = 0;
    assert(out.deep_view() =~= target.take(0));
    while i < list.len()
        invariant
            i <= list@.len(),
            target == list.deep_view(),
            out.deep_view() == target.take(i as int),
        decreases list@.len() - i,
    {
        let ghost before = out.deep_view();
        let a = text::copy_text(list[i].0.as_str());
        let b = text::copy_text(list[i].1.as_str());
        let keys = copy_key_lists(&list[i].2);
        out.push((a, b, keys));
        assert(out.deep_view() =~= before.push(target[i as int]));
        assert(target.take(i + 1) =~= target.take(i as int).push(target[i as int]));
        i += 1;
    }
    assert(target.take(i as int) =~= target);
    out
}

// ---------------------------------------------------------------------------------------------
// Gathering a group
// ---------------------------------------------------------------------------------------------
/// A group while it is gathered: the requests that joined it, their commands so far where those
/// are checked together, the keys that its inserts bring, and the requests that were refused.
#[verifier::ext_equal]
pub struct GroupModel {
    pub store: StoreModel,
    pub staged: Seq<RequestModel>,
    pub cumulative: Seq<CommandModel>,
    pub keys: KeysModel,
    pub failed: Seq<(u64, Seq<char>)>,
}

pub struct Group {
    pub staged: Vec<WriteRequest>,
    pub cumulative: Vec<WriteCommand>,
    pub keys: Vec<(String, String, Vec<(String, Vec<Vec<u8>>)>)>,
    pub failed: Vec<(u64, String)>,
}

impl Group {
    pub open spec fn model(self, s: StoreModel) -> GroupModel {
        GroupModel {
            store: s,
            staged: self.staged.deep_view(),
            cumulative: self.cumulative.deep_view(),
            keys: self.keys.deep_view(),
            failed: self.failed.deep_view(),
        }
    }
}

/// A group that nobody has joined.
pub open spec fn empty_group(s: StoreModel) -> GroupModel {
    GroupModel {
        store: s,
        staged: Seq::empty(),
        cumulative: Seq::empty(),
        keys: Seq::empty(),
        failed: Seq::empty(),
    }
}

pub open spec fn staged_inserts(staged: Seq<RequestModel>) -> bool {
    forall|i: int| 0 <= i < staged.len() ==> commands::all_inserts((#[trigger] staged[i]).commands)
}

pub open spec fn staged_independent(g: GroupModel) -> bool {
    g.cumulative.len() == 0 && forall|i: int|
        0 <= i < g.staged.len() ==> commands::all_independent((#[trigger] g.staged[i]).commands)
}

/// Whether a request, prepared, cannot stand in one group with those before it.
pub open spec fn closes(g: GroupModel, r: RequestModel) -> bool {
    g.staged.len() > 0 && (store::memory_only(r.commands, g.store) != store::memory_only(
        g.staged[0].commands,
        g.store,
    ) || commands::all_inserts(r.commands) != staged_inserts(g.staged) || (
    !commands::all_independent(r.commands) && staged_independent(g)))
}

/// Why a group cannot take a request, or the group with the request's commands checked.
pub open spec fn checked(g: GroupModel, r: RequestModel, cx: ContextModel) -> Result<
    GroupModel,
    Seq<char>,
> {
    if commands::all_inserts(r.commands) {
        match inserts_added(g.keys, r.commands, g.store, 0) {
            Err(e) => Err(e),
            Ok(keys) => Ok(GroupModel { keys: keys, ..g }),
        }
    } else if commands::all_independent(r.commands) && staged_independent(g) {
        match batch::refused(r.commands, g.store, cx) {
            Some(e) => Err(e),
            None => Ok(g),
        }
    } else {
        let together = g.cumulative + r.commands;
        match batch::refused(together, g.store, cx) {
            Some(e) => Err(e),
            None => Ok(GroupModel { cumulative: together, ..g }),
        }
    }
}

/// A prepared request offered to a group: it joins, is refused, or is handed back and ends the
/// group.
#[verifier::opaque]
pub open spec fn offered(g: GroupModel, r: RequestModel, cx: ContextModel) -> (
    GroupModel,
    Option<RequestModel>,
) {
    if closes(g, r) {
        (g, Some(r))
    } else {
        match checked(g, r, cx) {
            Err(e) => if g.staged.len() == 0 {
                (GroupModel { failed: g.failed.push((r.id, e)), ..g }, None)
            } else {
                (g, Some(r))
            },
            Ok(after) => (GroupModel { staged: g.staged.push(r), ..after }, None),
        }
    }
}

/// What a request comes to that cannot be prepared: alone it is refused; behind others it ends
/// the group, and is taken up again without its commands.
pub open spec fn unprepared(g: GroupModel, r: RequestModel, e: Seq<char>) -> (
    GroupModel,
    Option<RequestModel>,
) {
    if g.staged.len() == 0 {
        (GroupModel { failed: g.failed.push((r.id, e)), ..g }, None)
    } else {
        (g, Some(RequestModel { commands: Seq::empty(), ..r }))
    }
}

/// The next request of a group.
pub open spec fn group_step(g: GroupModel, r: RequestModel, cx: ContextModel) -> (
    GroupModel,
    Option<RequestModel>,
) {
    if r.prepared {
        offered(g, r, cx)
    } else {
        let (s, made) = prepare::prepared(g.store, r.commands, 0, cx);
        let next = GroupModel { store: s, ..g };
        match made {
            Err(e) => unprepared(next, r, e),
            Ok((list, id)) => offered(
                next,
                RequestModel {
                    commands: list,
                    last_insert_id: if r.last_insert_id != 0 {
                        r.last_insert_id
                    } else {
                        id
                    },
                    ..r
                },
                cx,
            ),
        }
    }
}

/// The group that the requests from the `at`-th on make, and the requests that are left.
pub open spec fn group_from(
    g: GroupModel,
    pending: Seq<RequestModel>,
    cx: ContextModel,
    at: int,
) -> (GroupModel, Seq<RequestModel>)
    decreases pending.len() - at,
{
    if at < 0 || at >= pending.len() {
        (g, Seq::empty())
    } else {
        let (next, back) = group_step(g, pending[at], cx);
        match back {
            Some(r) => (next, seq![r] + pending.subrange(at + 1, pending.len() as int)),
            None => group_from(next, pending, cx, at + 1),
        }
    }
}

fn are_staged_inserts(staged: &Vec<WriteRequest>) -> (r: bool)
    ensures
        r == staged_inserts(staged.deep_view()),
{
    let ghost all = staged.deep_view();
    let mut i: usize = 0;
    while i < staged.len()
        invariant
            i <= staged@.len(),
            all == staged.deep_view(),
            forall|j: int| 0 <= j < i ==> commands::all_inserts((#[trigger] all[j]).commands),
        decreases staged@.len() - i,
    {
        assert(all[i as int] == staged@[i as int]@);
        if !commands::commands_are_inserts(&staged[i].commands) {
            return false;
        }
        i += 1;
    }
    assert(all.len() == staged@.len());
    true
}

impl Group {
    pub fn new() -> (r: Self)
        ensures
            forall|s: StoreModel| #[trigger] r.model(s) == empty_group(s),
    {
        let g = Group {
            staged: Vec::new(),
            cumulative: Vec::new(),
            keys: Vec::new(),
            failed: Vec::new(),
        };
        assert(g.staged.deep_view() =~= Seq::empty());
        assert(g.cumulative.deep_view() =~= Seq::empty());
        assert(g.keys.deep_view() =~= Seq::empty());
        assert(g.failed.deep_view() =~= Seq::empty());
        g
    }

    fn is_independent(&self) -> (r: bool)
        ensures
            forall|s: StoreModel| r == staged_independent(#[trigger] self.model(s)),
    {
        let ghost all = self.staged.deep_view();
        assert(self.cumulative.deep_view().len() == self.cumulative@.len());
        assert(all.len() == self.staged@.len());
        if self.cumulative.len() != 0 {
            return false;
        }
        let mut i: usize = 0;
        while i < self.staged.len()
            invariant
                i <= self.staged@.len(),
                all == self.staged.deep_view(),
                forall|j: int|
                    0 <= j < i ==> commands::all_independent((#[trigger] all[j]).commands),
            decreases self.staged@.len() - i,
        {
            assert(all[i as int] == self.staged@[i as int]@);
            if !commands::commands_are_independent(&self.staged[i].commands) {
                assert forall|s: StoreModel| !staged_independent(#[trigger] self.model(s)) by {
                    assert(self.model(s).staged[i as int] == all[i as int]);
                }
                return false;
            }
            i += 1;
        }
        true
    }

    fn is_closed_to(&self, r: &WriteRequest, s: &Store) -> (b: bool)
        ensures
            b == closes(self.model(s@), r@),
    {
        assert(self.staged.deep_view().len() == self.staged@.len());
        let ghost g = self.model(s@);
        if self.staged.len() == 0 {
            return false;
        }
        assert(self.staged.deep_view()[0] == self.staged@[0]@);
        if store::commands_are_memory_dml(&r.commands, s) != store::commands_are_memory_dml(
            &self.staged[0].commands,
            s,
        ) {
            return true;
        }
        if commands::commands_are_inserts(&r.commands) != are_staged_inserts(&self.staged) {
            return true;
        }
        assert(g == self.model(s@));
        !commands::commands_are_independent(&r.commands) && self.is_independent()
    }

    fn refuse(&mut self, id: u64, message: String)
        ensures
            forall|s: StoreModel| #[trigger]
                final(self).model(s) == (GroupModel {
                    failed: old(self).model(s).failed.push((id, message@)),
                    ..old(self).model(s)
                }),
    {
        let ghost before = self.failed.deep_view();
        self.failed.push((id, message));
        assert(self.failed.deep_view() =~= before.push((id, message@)));
    }

    fn check(&mut self, r: &WriteRequest, s: &Store, cx: &Context) -> (res: DbResult<()>)
        requires
            s.wf(),
        ensures
            match checked(old(self).model(s@), r@, cx@) {
                Ok(after) => res is Ok && final(self).model(s@) == after,
                Err(e) => res matches Err(m) && m.message@ == e && final(self).model(s@) == old(
                    self,
                ).model(s@),
            },
    {
        let ghost g = self.model(s@);
        if commands::commands_are_inserts(&r.commands) {
            return validate_insert_commands_incremental(&r.commands, s, &mut self.keys);
        }
        assert(g == self.model(s@));
        if commands::commands_are_independent(&r.commands) && self.is_independent() {
            return batch::validate_write_batch(&r.commands, s, cx);
        }
        let mut together = commands::copy_commands(&self.cumulative);
        let mut more = commands::copy_commands(&r.commands);
        let ghost first = together.deep_view();
        let ghost second = more.deep_view();
        together.append(&mut more);
        assert(together.deep_view() =~= first + second);
        match batch::validate_write_batch(&together, s, cx) {
            Err(e) => Err(e),
            Ok(_) => {
                self.cumulative = together;
                Ok(())
            },
        }
    }

    fn offer(&mut self, r: WriteRequest, s: &Store, cx: &Context) -> (back: Option<WriteRequest>)
        requires
            s.wf(),
        ensures
            final(self).model(s@) == offered(old(self).model(s@), r@, cx@).0,
            back.deep_view() == offered(old(self).model(s@), r@, cx@).1,
    {
        proof {
            reveal(offered);
        }
        let ghost g = self.model(s@);
        assert(self.staged.deep_view().len() == self.staged@.len());
        if self.is_closed_to(&r, s) {
            return Some(r);
        }
        match self.check(&r, s, cx) {
            Err(e) => {
                if self.staged.len() == 0 {
                    self.refuse(r.id, e.message);
                    None
                } else {
                    Some(r)
                }
            },
            Ok(_) => {
                let ghost before = self.staged.deep_view();
                let ghost made = r@;
                self.staged.push(r);
                assert(self.staged.deep_view() =~= before.push(made));
                None
            },
        }
    }

    fn step(&mut self, s: &mut Store, r: &WriteRequest, cx: &Context) -> (back: Option<
        WriteRequest,
    >)
        requires
            old(s).wf(),
        ensures
            final(s).wf(),
            final(self).model(final(s)@) == group_step(old(self).model(old(s)@), r@, cx@).0,
            back.deep_view() == group_step(old(self).model(old(s)@), r@, cx@).1,
    {
        proof {
            reveal(offered);
        }
        let mut next = r.clone();
        if !r.prepared {
            let ghost before = self.model(s@);
            match prepare::prepare_write_commands(s, &r.commands, cx) {
                Err(e) => {
                    assert(self.model(s@) == (GroupModel { store: s@, ..before }));
                    assert(self.staged.deep_view().len() == self.staged@.len());
                    if self.staged.len() == 0 {
                        self.refuse(r.id, e.message);
                        return None;
                    }
                    next.commands = Vec::new();
                    assert(next.commands.deep_view() =~= Seq::empty());
                    return Some(next);
                },
                Ok(made) => {
                    assert(self.model(s@) == (GroupModel { store: s@, ..before }));
                    next.commands = made.0;
                    if next.last_insert_id == 0 {
                        next.last_insert_id = made.1;
                    }
                },
            }
        }
        self.offer(next, s, cx)
    }
}

fn requests_after(pending: &Vec<WriteRequest>, first: WriteRequest, at: usize) -> (r: Vec<
    WriteRequest,
>)
    requires
        at <= pending@.len(),
    ensures
        r.deep_view() == seq![first@] + pending.deep_view().subrange(
            at as int,
            pending@.len() as int,
        ),
{
    let ghost all = pending.deep_view();
    let mut out: Vec<WriteRequest> = Vec::new();
    out.push(first);
    assert(out.deep_view() =~= seq![first@]);
    let mut i: usize = at;
    assert(out.deep_view() =~= seq![first@] + all.subrange(at as int, at as int));
    while i < pending.len()
        invariant
            at <= i <= pending@.len(),
            all == pending.deep_view(),
            out.deep_view() == seq![first@] + all.subrange(at as int, i as int),
        decreases pending@.len() - i,
    {
        let ghost before = out.deep_view();
        let copy = pending[i].clone();
        out.push(copy);
        assert(out.deep_view() =~= before.push(all[i as int]));
        assert(out.deep_view() =~= seq![first@] + all.subrange(at as int, i + 1));
        i += 1;
    }
    out
}

/// A gathered group: the requests to log and apply, those that were refused, and those left for
/// the next group.
pub struct StagedGroup {
    pub staged: Vec<WriteRequest>,
    pub failed: Vec<(u64, String)>,
    pub rest: Vec<WriteRequest>,
}

/// Gathers the next group from the requests that wait.
#[verifier::loop_isolation(false)]
pub fn stage_group(s: &mut Store, pending: &Vec<WriteRequest>, cx: &Context) -> (r: StagedGroup)
    requires
        old(s).wf(),
    ensures
        final(s).wf(),
        ({
            let (g, rest) = group_from(empty_group(old(s)@), pending.deep_view(), cx@, 0);
            final(s)@ == g.store && r.staged.deep_view() == g.staged && r.failed.deep_view()
                == g.failed && r.rest.deep_view() == rest
        }),
{
    let ghost all = pending.deep_view();
    let ghost whole = group_from(empty_group(s@), all, cx@, 0);
    let mut g = Group::new();
    let mut i: usize = 0;
    while i < pending.len()
        invariant
            i <= pending@.len(),
            s.wf(),
            all == pending.deep_view(),
            group_from(g.model(s@), all, cx@, i as int) == whole,
        decreases pending@.len() - i,
    {
        assert(all[i as int] == pending@[i as int]@);
        match g.step(s, &pending[i], cx) {
            None => {},
            Some(back) => {
                let rest = requests_after(pending, back, i + 1);
                return StagedGroup { staged: g.staged, failed: g.failed, rest: rest };
            },
        }
        i += 1;
    }
    let rest: Vec<WriteRequest> = Vec::new();
    assert(rest.deep_view() =~= Seq::empty());
    StagedGroup { staged: g.staged, failed: g.failed, rest: rest }
}

// ---------------------------------------------------------------------------------------------
// Applying a group
// ---------------------------------------------------------------------------------------------
/// Whether a group changes MEMORY tables only, and so is neither logged nor put on pages.
pub open spec fn memory_group(staged: Seq<RequestModel>, s: StoreModel) -> bool {
    staged.len() > 0 && store::memory_only(staged[0].commands, s)
}

pub fn is_memory_group(staged: &Vec<WriteRequest>, s: &Store) -> (r: bool)
    ensures
        r == memory_group(staged.deep_view(), s@),
{
    assert(staged.deep_view().len() == staged@.len());
    if staged.len() == 0 {
        return false;
    }
    assert(staged.deep_view()[0] == staged@[0]@);
    store::commands_are_memory_dml(&staged[0].commands, s)
}

/// The commands of the requests from the `at`-th on, behind those before them.
pub open spec fn commands_from(
    staged: Seq<RequestModel>,
    at: int,
    done: Seq<CommandModel>,
) -> Seq<CommandModel>
    decreases staged.len() - at,
{
    if at < 0 || at >= staged.len() {
        done
    } else {
        commands_from(staged, at + 1, done + staged[at].commands)
    }
}

fn collect_commands(staged: &Vec<WriteRequest>) -> (r: Vec<WriteCommand>)
    ensures
        r.deep_view() == commands_from(staged.deep_view(), 0, Seq::empty()),
{
    let ghost all = staged.deep_view();
    let mut out: Vec<WriteCommand> = Vec::new();
    let mut i: usize = 0;
    assert(out.deep_view() =~= Seq::empty());
    while i < staged.len()
        invariant
            i <= staged@.len(),
            all == staged.deep_view(),
            commands_from(all, i as int, out.deep_view()) == commands_from(all, 0, Seq::empty()),
        decreases staged@.len() - i,
    {
        assert(all[i as int] == staged@[i as int]@);
        let ghost before = out.deep_view();
        let mut more = commands::copy_commands(&staged[i].commands);
        let ghost added = more.deep_view();
        out.append(&mut more);
        assert(out.deep_view() =~= before + added);
        i += 1;
    }
    out
}

/// A result with the number that preparing the request generated, where applying it gave none.
pub open spec fn with_number(
    r: Result<WriteResult, Seq<char>>,
    id: u64,
) -> Result<WriteResult, Seq<char>> {
    match r {
        Err(e) => Err(e),
        Ok(w) => Ok(
            WriteResult {
                affected_rows: w.affected_rows,
                last_insert_id: if w.last_insert_id == 0 {
                    id
                } else {
                    w.last_insert_id
                },
            },
        ),
    }
}

pub open spec fn earlier_failure(memory: bool) -> Seq<char> {
    if memory {
        "earlier MEMORY statement failed to apply"@
    } else {
        "earlier committed transaction failed to apply; restart recovery required"@
    }
}

/// How many abandoned tables are left behind commands: none once a cleanup is among them.
pub open spec fn orphans_behind(list: Seq<CommandModel>, orphans: u64) -> u64 {
    if list.contains(CommandModel::CleanupOrphanStorage) {
        0
    } else {
        orphans
    }
}

fn count_orphans_behind(list: &Vec<WriteCommand>, orphans: u64) -> (r: u64)
    ensures
        r == orphans_behind(list.deep_view(), orphans),
{
    let ghost all = list.deep_view();
    let mut i: usize = 0;
    while i < list.len()
        invariant
            i <= list@.len(),
            all == list.deep_view(),
            forall|j: int| 0 <= j < i ==> (#[trigger] all[j]) != CommandModel::CleanupOrphanStorage,
        decreases list@.len() - i,
    {
        assert(all[i as int] == list@[i as int]@);
        match &list[i] {
            WriteCommand::CleanupOrphanStorage => {
                assert(all[i as int] == CommandModel::CleanupOrphanStorage);
                return 0;
            },
            _ => {},
        }
        i += 1;
    }
    orphans
}

/// The requests from the `at`-th on applied one after the other. Once one has failed, the others
/// are not applied; and once one has cleaned up, nothing is left for the others to clean up.
pub open spec fn each_applied(
    s: StoreModel,
    staged: Seq<RequestModel>,
    memory: bool,
    orphans: u64,
    cx: ContextModel,
    at: int,
    failed: bool,
    done: Seq<ReplyModel>,
) -> (StoreModel, Seq<ReplyModel>)
    decreases staged.len() - at,
{
    if at < 0 || at >= staged.len() {
        (s, done)
    } else {
        let r = staged[at];
        let (after, outcome) = if failed {
            (s, Err(earlier_failure(memory)))
        } else {
            apply::applied_batch(
                s,
                r.commands,
                !memory && commands::all_rows_only(r.commands),
                orphans,
                cx,
            )
        };
        each_applied(
            after,
            staged,
            memory,
            orphans_behind(r.commands, orphans),
            cx,
            at + 1,
            failed || outcome is Err,
            done.push(
                ReplyModel { id: r.id, outcome: with_number(outcome, r.last_insert_id) },
            ),
        )
    }
}

/// The replies to a group of inserts that was applied as one.
pub open spec fn insert_replies(
    staged: Seq<RequestModel>,
    outcome: Result<WriteResult, Seq<char>>,
) -> Seq<ReplyModel> {
    Seq::new(
        staged.len(),
        |i: int|
            ReplyModel {
                id: staged[i].id,
                outcome: match outcome {
                    Err(e) => Err(e),
                    Ok(_) => Ok(
                        WriteResult {
                            affected_rows: staged[i].commands.len() as u64,
                            last_insert_id: staged[i].last_insert_id,
                        },
                    ),
                },
            },
    )
}

/// What applying a group comes to. A group of inserts is applied as one, so that its rows share
/// pages.
pub open spec fn group_applied(
    s: StoreModel,
    staged: Seq<RequestModel>,
    orphans: u64,
    cx: ContextModel,
) -> (StoreModel, Seq<ReplyModel>) {
    if memory_group(staged, s) {
        each_applied(s, staged, true, orphans, cx, 0, false, Seq::empty())
    } else if staged_inserts(staged) {
        let (after, outcome) = apply::applied_batch(
            s,
            commands_from(staged, 0, Seq::empty()),
            true,
            orphans,
            cx,
        );
        (after, insert_replies(staged, outcome))
    } else {
        each_applied(s, staged, false, orphans, cx, 0, false, Seq::empty())
    }
}

#[verifier::loop_isolation(false)]
fn apply_each(
    s: &mut Store,
    staged: &Vec<WriteRequest>,
    memory: bool,
    orphans: u64,
    cx: &Context,
) -> (r: Vec<Reply>)
    requires
        old(s).wf(),
    ensures
        final(s).wf(),
        (final(s)@, r.deep_view()) == each_applied(
            old(s)@,
            staged.deep_view(),
            memory,
            orphans,
            cx@,
            0,
            false,
            Seq::empty(),
        ),
{
    let ghost all = staged.deep_view();
    let ghost whole = each_applied(s@, all, memory, orphans, cx@, 0, false, Seq::empty());
    let mut out: Vec<Reply> = Vec::new();
    let mut failed: bool = false;
    let mut left: u64 = orphans;
    let mut i: usize = 0;
    assert(out.deep_view() =~= Seq::empty());
    while i < staged.len()
        invariant
            i <= staged@.len(),
            s.wf(),
            all == staged.deep_view(),
            each_applied(
                s@,
                all,
                memory,
                left,
                cx@,
                i as int,
                failed,
                out.deep_view(),
            ) == whole,
        decreases staged@.len() - i,
    {
        assert(all[i as int] == staged@[i as int]@);
        let outcome: DbResult<WriteResult> = if failed {
            if memory {
                Err(DbError::of("earlier MEMORY statement failed to apply"))
            } else {
                Err(
                    DbError::of(
                        "earlier committed transaction failed to apply; restart recovery required",
                    ),
                )
            }
        } else {
            let defer = !memory && commands::commands_change_rows_only(&staged[i].commands);
            batch::apply_write_batch(s, &staged[i].commands, defer, false, left, cx)
        };
        failed = failed || outcome.is_err();
        let outcome: DbResult<WriteResult> = match outcome {
            Err(e) => Err(e),
            Ok(w) => Ok(
                WriteResult {
                    affected_rows: w.affected_rows,
                    last_insert_id: if w.last_insert_id == 0 {
                        staged[i].last_insert_id
                    } else {
                        w.last_insert_id
                    },
                },
            ),
        };
        push_reply(&mut out, staged[i].id, outcome);
        left = count_orphans_behind(&staged[i].commands, left);
        i += 1;
    }
    out
}

fn reply_inserts(staged: &Vec<WriteRequest>, outcome: DbResult<WriteResult>) -> (r: Vec<Reply>)
    ensures
        r.deep_view() == insert_replies(staged.deep_view(), error::outcome(outcome)),
{
    let ghost all = staged.deep_view();
    let ghost target = insert_replies(all, error::outcome(outcome));
    let mut out: Vec<Reply> = Vec::new();
    let mut i: usize = 0;
    assert(out.deep_view() =~= target.take(0));
    while i < staged.len()
        invariant
            i <= staged@.len(),
            all == staged.deep_view(),
            target == insert_replies(all, error::outcome(outcome)),
            out.deep_view() == target.take(i as int),
        decreases staged@.len() - i,
    {
        assert(all[i as int] == staged@[i as int]@);
        assert(all[i as int].commands.len() == staged@[i as int].commands@.len());
        let one: DbResult<WriteResult> = match &outcome {
            Err(e) => Err(DbError::of(e.message.as_str())),
            Ok(_) => Ok(
                WriteResult {
                    affected_rows: staged[i].commands.len() as u64,
                    last_insert_id: staged[i].last_insert_id,
                },
            ),
        };
        push_reply(&mut out, staged[i].id, one);
        assert(target.take(i + 1) =~= target.take(i as int).push(target[i as int]));
        i += 1;
    }
    assert(target.take(i as int) =~= target);
    out
}

/// Applies a group, which the log already holds unless it changes MEMORY tables only.
pub fn apply_group(s: &mut Store, staged: &Vec<WriteRequest>, orphans: u64, cx: &Context) -> (r: Vec<
    Reply,
>)
    requires
        old(s).wf(),
    ensures
        final(s).wf(),
        (final(s)@, r.deep_view()) == group_applied(old(s)@, staged.deep_view(), orphans, cx@),
{
    if is_memory_group(staged, s) {
        return apply_each(s, staged, true, orphans, cx);
    }
    if are_staged_inserts(staged) {
        let list = collect_commands(staged);
        let outcome = batch::apply_write_batch(s, &list, true, false, orphans, cx);
        return reply_inserts(staged, outcome);
    }
    apply_each(s, staged, false, orphans, cx)
}

/// The replies to a group that could not be logged: nothing of it is applied.
pub fn unlogged_replies(staged: &Vec<WriteRequest>, message: &str) -> (r: Vec<Reply>)
    ensures
        r.deep_view() == Seq::new(
            staged@.len(),
            |i: int|
                ReplyModel {
                    id: staged.deep_view()[i].id,
                    outcome: Err::<WriteResult, Seq<char>>(
                        "WAL group commit failed: "@ + message@,
                    ),
                },
        ),
{
    let ghost all = staged.deep_view();
    let ghost target = Seq::new(
        staged@.len(),
        |i: int|
            ReplyModel {
                id: all[i].id,
                outcome: Err::<WriteResult, Seq<char>>("WAL group commit failed: "@ + message@),
            },
    );
    let mut out: Vec<Reply> = Vec::new();
    let mut i: usize = 0;
    assert(out.deep_view() =~= target.take(0));
    while i < staged.len()
        invariant
            i <= staged@.len(),
            all == staged.deep_view(),
            target.len() == staged@.len(),
            forall|j: int|
                0 <= j < target.len() ==> #[trigger] target[j] == (ReplyModel {
                    id: all[j].id,
                    outcome: Err::<WriteResult, Seq<char>>(
                        "WAL group commit failed: "@ + message@,
                    ),
                }),
            out.deep_view() == target.take(i as int),
        decreases staged@.len() - i,
    {
        assert(all[i as int] == staged@[i as int]@);
        let text = error::cat2("WAL group commit failed: ", message);
        push_reply(&mut out, staged[i].id, Err(DbError::new(text)));
        assert(target[i as int].id == all[i as int].id);
        assert(target.take(i + 1) =~= target.take(i as int).push(target[i as int]));
        i += 1;
    }
    assert(target.take(i as int) =~= target);
    out
}

/// Whether every request of a group was applied.
pub fn all_succeeded(replies: &Vec<Reply>) -> (r: bool)
    ensures
        r == (forall|i: int|
            0 <= i < replies@.len() ==> (#[trigger] replies.deep_view()[i]).outcome is Ok),
{
    let ghost all = replies.deep_view();
    let mut i: usize = 0;
    while i < replies.len()
        invariant
            i <= replies@.len(),
            all == replies.deep_view(),
            forall|j: int| 0 <= j < i ==> (#[trigger] all[j]).outcome is Ok,
        decreases replies@.len() - i,
    {
        assert(all[i as int] == replies@[i as int]@);
        if replies[i].outcome.is_err() {
            return false;
        }
        i += 1;
    }
    true
}

// ---------------------------------------------------------------------------------------------
// Checkpoints
// ---------------------------------------------------------------------------------------------
/// The tables whose rows the requests from the `at`-th on stage, each once.
pub open spec fn deferred_from(
    staged: Seq<RequestModel>,
    at: int,
    done: Seq<(Seq<char>, Seq<char>)>,
) -> Seq<(Seq<char>, Seq<char>)>
    decreases staged.len() - at,
{
    if at < 0 || at >= staged.len() {
        done
    } else {
        deferred_from(
            staged,
            at + 1,
            if commands::all_rows_only(staged[at].commands) {
                replay::changed_tables_from(staged[at].commands, 0, done)
            } else {
                done
            },
        )
    }
}

/// What waits for the next checkpoint: tables with staged rows, the logged groups that they come
/// from, and how many groups there were.
#[derive(Debug)]
pub struct ActorCheckpointState {
    pub tables: Vec<(String, String)>,
    pub transactions: Vec<u64>,
    pub groups_since_checkpoint: u64,
}

impl ActorCheckpointState {
    pub fn new() -> (r: Self)
        ensures
            r.tables.deep_view() == Seq::<(Seq<char>, Seq<char>)>::empty(),
            r.transactions@ == Seq::<u64>::empty(),
            r.groups_since_checkpoint == 0,
    {
        let r = ActorCheckpointState {
            tables: Vec::new(),
            transactions: Vec::new(),
            groups_since_checkpoint: 0,
        };
        assert(r.tables.deep_view() =~= Seq::empty());
        r
    }

    pub fn clear(&mut self)
        ensures
            final(self).tables.deep_view() == Seq::<(Seq<char>, Seq<char>)>::empty(),
            final(self).transactions@ == Seq::<u64>::empty(),
            final(self).groups_since_checkpoint == 0,
    {
        self.tables = Vec::new();
        self.transactions = Vec::new();
        self.groups_since_checkpoint = 0;
        assert(self.tables.deep_view() =~= Seq::empty());
    }

    /// Notes a group that was applied, and tells whether a checkpoint is due.
    pub fn record_group(&mut self, staged: &Vec<WriteRequest>, group: u64, succeeded: bool) -> (due:
        bool)
        ensures
            final(self).tables.deep_view() == deferred_from(
                staged.deep_view(),
                0,
                old(self).tables.deep_view(),
            ),
            final(self).transactions@ == (if succeeded {
                old(self).transactions@.push(group)
            } else {
                old(self).transactions@
            }),
            final(self).groups_since_checkpoint == old(
                self,
            ).groups_since_checkpoint.saturating_add(1),
            due == (final(self).groups_since_checkpoint >= CHECKPOINT_GROUP_INTERVAL),
    {
        let ghost all = staged.deep_view();
        let ghost whole = deferred_from(all, 0, self.tables.deep_view());
        let ghost before = *self;
        let mut i: usize = 0;
        while i < staged.len()
            invariant
                i <= staged@.len(),
                all == staged.deep_view(),
                self.transactions == before.transactions,
                self.groups_since_checkpoint == before.groups_since_checkpoint,
                deferred_from(all, i as int, self.tables.deep_view()) == whole,
            decreases staged@.len() - i,
        {
            assert(all[i as int] == staged@[i as int]@);
            if commands::commands_change_rows_only(&staged[i].commands) {
                replay::add_changed_tables(&staged[i].commands, &mut self.tables);
            }
            i += 1;
        }
        if succeeded {
            self.transactions.push(group);
        }
        self.groups_since_checkpoint = self.groups_since_checkpoint.saturating_add(1);
        self.groups_since_checkpoint >= CHECKPOINT_GROUP_INTERVAL
    }

    /// Puts the staged rows on pages, unless no logged group waits for it. Once it has succeeded
    /// the groups may be marked as applied in the log.
    pub fn checkpoint(&self, s: &mut Store, cx: &Context) -> (r: DbResult<()>)
        requires
            old(s).wf(),
        ensures
            final(s).wf(),
            self.transactions@.len() == 0 ==> final(s)@ == old(s)@ && r is Ok,
            self.transactions@.len() > 0 ==> (final(s)@, error::outcome(r))
                == replay::checkpointed_from(old(s)@, self.tables.deep_view(), cx@, 0),
    {
        if self.transactions.len() == 0 {
            return Ok(());
        }
        replay::checkpoint_tables(s, &self.tables, cx)
    }
}

// ---------------------------------------------------------------------------------------------
// Laws
// ---------------------------------------------------------------------------------------------
proof fn step_keeps(g: GroupModel, r: RequestModel, cx: ContextModel)
    ensures
        ({
            let (next, back) = group_step(g, r, cx);
            &&& g.staged.len() == 0 ==> back is None
            &&& back is Some ==> next.staged == g.staged && next.failed == g.failed
                && (back->0).id == r.id
            &&& back is None ==> (next.staged == g.staged && next.failed.len() == g.failed.len() + 1
                && next.failed.last().0 == r.id && next.failed.drop_last() == g.failed) || (
            next.failed == g.failed && next.staged.len() == g.staged.len() + 1
                && next.staged.last().id == r.id && next.staged.drop_last() == g.staged && (
            g.staged.len() > 0 ==> commands::all_inserts(next.staged.last().commands)
                == staged_inserts(g.staged)))
        }),
{
    reveal(offered);
    let (next, back) = group_step(g, r, cx);
    if back is None {
        assert(next.staged == g.staged ==> next.failed.drop_last() =~= g.failed);
        assert(next.failed == g.failed ==> next.staged.drop_last() =~= g.staged);
    }
}

/// The first of the requests that wait always leaves the queue, so that gathering groups ends.
pub proof fn groups_make_progress(s: StoreModel, pending: Seq<RequestModel>, cx: ContextModel)
    requires
        pending.len() > 0,
    ensures
        group_from(empty_group(s), pending, cx, 0).1.len() < pending.len(),
{
    let g = empty_group(s);
    step_keeps(g, pending[0], cx);
    rest_is_short(group_step(g, pending[0], cx).0, pending, cx, 1);
}

proof fn rest_is_short(g: GroupModel, pending: Seq<RequestModel>, cx: ContextModel, at: int)
    requires
        0 <= at <= pending.len(),
    ensures
        group_from(g, pending, cx, at).1.len() <= pending.len() - at,
    decreases pending.len() - at,
{
    if at < pending.len() {
        rest_is_short(group_step(g, pending[at], cx).0, pending, cx, at + 1);
    }
}

/// The ids of a group's requests, refused ones and those left behind, in that order.
pub open spec fn ids(g: GroupModel, rest: Seq<RequestModel>) -> Seq<u64> {
    g.staged.map_values(|r: RequestModel| r.id) + g.failed.map_values(|f: (u64, Seq<char>)| f.0)
        + rest.map_values(|r: RequestModel| r.id)
}

/// Nobody who waits is forgotten or served twice: the requests of the group, those refused and
/// those left are the requests that waited.
pub proof fn every_request_has_one_place(
    s: StoreModel,
    pending: Seq<RequestModel>,
    cx: ContextModel,
)
    ensures
        ({
            let (g, rest) = group_from(empty_group(s), pending, cx, 0);
            ids(g, rest).to_multiset() == pending.map_values(
                |r: RequestModel| r.id,
            ).to_multiset()
        }),
{
    let g = empty_group(s);
    places_kept(g, pending, cx, 0);
    assert(pending.subrange(0, pending.len() as int) =~= pending);
    assert(ids(g, pending) =~= pending.map_values(|r: RequestModel| r.id));
}

proof fn places_kept(g: GroupModel, pending: Seq<RequestModel>, cx: ContextModel, at: int)
    requires
        0 <= at <= pending.len(),
    ensures
        ({
            let (h, rest) = group_from(g, pending, cx, at);
            ids(h, rest).to_multiset() == ids(
                g,
                pending.subrange(at, pending.len() as int),
            ).to_multiset()
        }),
    decreases pending.len() - at,
{
    broadcast use vstd::seq_lib::group_to_multiset_ensures;

    let left = pending.subrange(at, pending.len() as int);
    if at == pending.len() {
        assert(left =~= Seq::empty());
    } else {
        let r = pending[at];
        let after = pending.subrange(at + 1, pending.len() as int);
        assert(left =~= seq![r] + after);
        step_keeps(g, r, cx);
        let (next, back) = group_step(g, r, cx);
        match back {
            Some(b) => {
                let rest = seq![b] + after;
                assert(ids(next, rest) =~= ids(g, left));
            },
            None => {
                places_kept(next, pending, cx, at + 1);
                let a = g.staged.map_values(|r: RequestModel| r.id);
                let f = g.failed.map_values(|f: (u64, Seq<char>)| f.0);
                let t = after.map_values(|r: RequestModel| r.id);
                assert(left.map_values(|r: RequestModel| r.id) =~= seq![r.id] + t);
                vstd::seq_lib::lemma_multiset_commutative(a + f, seq![r.id] + t);
                vstd::seq_lib::lemma_multiset_commutative(a, f);
                vstd::seq_lib::lemma_multiset_commutative(seq![r.id], t);
                if next.staged == g.staged {
                    assert(next.failed.map_values(|f: (u64, Seq<char>)| f.0) =~= f + seq![r.id]);
                    assert(ids(next, after) =~= a + f + (seq![r.id] + t));
                } else {
                    let a2 = next.staged.map_values(|r: RequestModel| r.id);
                    assert(a2 =~= a + seq![r.id]);
                    vstd::seq_lib::lemma_multiset_commutative(a + seq![r.id] + f, t);
                    vstd::seq_lib::lemma_multiset_commutative(a + seq![r.id], f);
                    vstd::seq_lib::lemma_multiset_commutative(a, seq![r.id]);
                    assert(ids(next, after) =~= a + seq![r.id] + f + t);
                    assert(ids(g, left) =~= (a + f) + (seq![r.id] + t));
                    assert(ids(next, after).to_multiset() =~= ids(g, left).to_multiset());
                }
            },
        }
    }
}

/// A group holds inserts only, or no request of inserts only.
pub proof fn inserts_are_grouped_apart(s: StoreModel, pending: Seq<RequestModel>, cx: ContextModel)
    ensures
        ({
            let staged = group_from(empty_group(s), pending, cx, 0).0.staged;
            staged_inserts(staged) || forall|i: int|
                0 <= i < staged.len() ==> !commands::all_inserts((#[trigger] staged[i]).commands)
        }),
{
    kinds_kept(empty_group(s), pending, cx, 0);
}

spec fn one_kind(staged: Seq<RequestModel>) -> bool {
    staged_inserts(staged) || forall|i: int|
        0 <= i < staged.len() ==> !commands::all_inserts((#[trigger] staged[i]).commands)
}

proof fn kinds_kept(g: GroupModel, pending: Seq<RequestModel>, cx: ContextModel, at: int)
    requires
        0 <= at <= pending.len(),
        one_kind(g.staged),
    ensures
        one_kind(group_from(g, pending, cx, at).0.staged),
    decreases pending.len() - at,
{
    if at < pending.len() {
        step_keeps(g, pending[at], cx);
        let (next, back) = group_step(g, pending[at], cx);
        if next.staged != g.staged {
            let t = next.staged;
            assert forall|i: int| 0 <= i < g.staged.len() implies t[i] == g.staged[i] by {
                assert(t.drop_last()[i] == g.staged[i]);
            }
            if g.staged.len() > 0 && !staged_inserts(g.staged) {
                assert(!commands::all_inserts(t.last().commands));
            }
        }
        if back is None {
            kinds_kept(next, pending, cx, at + 1);
        }
    }
}

proof fn replies_follow(
    s: StoreModel,
    staged: Seq<RequestModel>,
    memory: bool,
    orphans: u64,
    cx: ContextModel,
    at: int,
    failed: bool,
    done: Seq<ReplyModel>,
)
    requires
        0 <= at <= staged.len(),
        done.len() == at,
        forall|i: int| 0 <= i < at ==> (#[trigger] done[i]).id == staged[i].id,
    ensures
        ({
            let replies = each_applied(s, staged, memory, orphans, cx, at, failed, done).1;
            replies.len() == staged.len() && forall|i: int|
                0 <= i < staged.len() ==> (#[trigger] replies[i]).id == staged[i].id
        }),
    decreases staged.len() - at,
{
    if at < staged.len() {
        let r = staged[at];
        let (after, outcome) = if failed {
            (s, Err(earlier_failure(memory)))
        } else {
            apply::applied_batch(
                s,
                r.commands,
                !memory && commands::all_rows_only(r.commands),
                orphans,
                cx,
            )
        };
        replies_follow(
            after,
            staged,
            memory,
            orphans_behind(r.commands, orphans),
            cx,
            at + 1,
            failed || outcome is Err,
            done.push(
                ReplyModel { id: r.id, outcome: with_number(outcome, r.last_insert_id) },
            ),
        );
    }
}

/// Every request of an applied group is answered, once and in order.
pub proof fn every_request_is_answered(
    s: StoreModel,
    staged: Seq<RequestModel>,
    orphans: u64,
    cx: ContextModel,
)
    ensures
        ({
            let replies = group_applied(s, staged, orphans, cx).1;
            replies.len() == staged.len() && forall|i: int|
                0 <= i < staged.len() ==> (#[trigger] replies[i]).id == staged[i].id
        }),
{
    replies_follow(s, staged, true, orphans, cx, 0, false, Seq::empty());
    replies_follow(s, staged, false, orphans, cx, 0, false, Seq::empty());
}

} // verus!
