//! What dumps keep and what restoring them does.
use crate::assoc;
use crate::dump;
use crate::dump::{BackupKind, ManifestModel, RestoreOptions, RestoreStep, SourceTableModel, TableAction, TableEntryModel};
use crate::seqs;
use crate::text;
use crate::update;
use vstd::prelude::*;

verus! {

// ---------------------------------------------------------------------------------------------
// What is dumped
// ---------------------------------------------------------------------------------------------
proof fn named_is(tables: Seq<SourceTableModel>, name: Seq<char>, n: int)
    requires
        0 <= n <= tables.len(),
    ensures
        dump::table_named(tables, name, n) matches Some(t) ==> t.name == name && tables.contains(t),
        dump::table_named(tables, name, n) is None <==> forall|i: int|
            0 <= i < n ==> (#[trigger] tables[i]).name != name,
    decreases n,
{
    if n > 0 {
        named_is(tables, name, n - 1);
        assert(tables.contains(tables[n - 1]));
    }
}

/// A dump takes the tables that were asked for, in their order; one that is not there is an error.
pub proof fn dumps_take_what_was_asked_for(
    available: Seq<SourceTableModel>,
    requested: Seq<Seq<char>>,
    n: int,
    i: int,
)
    requires
        0 <= n <= requested.len(),
    ensures
        dump::chosen(available, requested, n) matches Ok(list) ==> list.len() == n && (0 <= i < n
            ==> list[i].name == requested[i] && available.contains(list[i])),
        dump::chosen(available, requested, n) is Err <==> exists|k: int|
            0 <= k < n && #[trigger] lacks(available, requested[k]),
    decreases n,
{
    if n > 0 {
        dumps_take_what_was_asked_for(available, requested, n - 1, i);
        named_is(available, requested[n - 1], available.len() as int);
        assert(lacks(available, requested[n - 1]) == (dump::table_named(
            available,
            requested[n - 1],
            available.len() as int,
        ) is None));
    }
}

/// Whether no table has a name.
pub open spec fn lacks(available: Seq<SourceTableModel>, name: Seq<char>) -> bool {
    forall|i: int| 0 <= i < available.len() ==> (#[trigger] available[i]).name != name
}

/// A dump without locks takes tables of InnoDB only, unless others were allowed.
pub proof fn dumps_without_locks_need_transactions(tables: Seq<SourceTableModel>, allowed: bool)
    ensures
        dump::checked_engines(tables, allowed) is Ok <==> allowed || forall|i: int|
            0 <= i < tables.len() ==> text::same_fold((#[trigger] tables[i]).engine, "InnoDB"@),
{
    let p = |t: SourceTableModel| !dump::transactional(t);
    let bad = tables.filter(p);
    assert(dump::unsafe_tables(tables) == bad);
    if bad.len() > 0 {
        assert(bad.contains(bad[0]));
        seqs::filter_holds(tables, p, bad[0]);
        let i = tables.index_of(bad[0]);
        assert(!text::same_fold(tables[i].engine, "InnoDB"@));
    } else {
        assert forall|i: int| 0 <= i < tables.len() implies text::same_fold(
            (#[trigger] tables[i]).engine,
            "InnoDB"@,
        ) by {
            seqs::filter_holds(tables, p, tables[i]);
            if p(tables[i]) {
                assert(tables.contains(tables[i]));
                assert(bad.contains(tables[i]));
            }
        }
    }
}

/// A table is left out of an increment exactly where it was there before with the same definition,
/// content and number of rows; otherwise its data are written, with the checksum of the file.
pub proof fn changed_tables_are_dumped(
    name: Seq<char>,
    ddl: Seq<char>,
    rows: u64,
    content: Seq<char>,
    sql_bytes: u64,
    stream: Seq<u8>,
    prior: Option<TableEntryModel>,
)
    ensures
        ({
            let e = dump::settled(name, ddl, rows, content, sql_bytes, stream, prior);
            let same = prior matches Some(p) && p.ddl_checksum == update::checksum_of(
                text::bytes_of(ddl),
            ) && p.content_checksum == content && p.rows == rows;
            &&& e.name == name && e.ddl == ddl && e.rows == rows && e.content_checksum == content
            &&& e.ddl_checksum == update::checksum_of(text::bytes_of(ddl))
            &&& same ==> e.action == TableAction::Unchanged && e.data_file is None
                && e.data_file_checksum is None
            &&& !same ==> e.action == TableAction::Replace && e.data_file == Some(
                dump::data_file(name),
            ) && e.data_file_checksum == Some(update::checksum_of(stream)) && e.uncompressed_bytes
                == sql_bytes
        }),
{
}

/// The entry of a table in a manifest is one of its name.
pub proof fn entries_are_found_by_name(tables: Seq<TableEntryModel>, name: Seq<char>, n: int)
    requires
        0 <= n <= tables.len(),
    ensures
        dump::prior_entry(tables, name, n) matches Some(e) ==> e.name == name && tables.contains(e),
        dump::prior_entry(tables, name, n) is None <==> forall|i: int|
            0 <= i < n ==> (#[trigger] tables[i]).name != name,
    decreases n,
{
    if n > 0 {
        entries_are_found_by_name(tables, name, n - 1);
        assert(tables.contains(tables[n - 1]));
    }
}

/// The dropped tables are those that the base had and that are no longer there.
pub proof fn gone_tables_are_noted(
    base: Seq<TableEntryModel>,
    current: Seq<TableEntryModel>,
    name: Seq<char>,
)
    ensures
        dump::dropped(base, current).contains(name) <==> (exists|i: int|
            0 <= i < base.len() && (#[trigger] base[i]).name == name) && !(exists|i: int|
            0 <= i < current.len() && (#[trigger] current[i]).name == name),
{
    let names = dump::entry_names(base);
    let kept = dump::entry_names(current);
    let p = dump::not_among(kept);
    let gone = names.filter(p);
    assoc::listed_means(gone);
    assert(gone.to_set().contains(name) == gone.contains(name));
    let out = dump::dropped(base, current);
    assert(out.to_set().contains(name) == out.contains(name));
    seqs::filter_holds(names, p, name);
    if names.contains(name) {
        let i = names.index_of(name);
        assert(base[i].name == name);
    }
    if exists|i: int| 0 <= i < base.len() && (#[trigger] base[i]).name == name {
        let i = choose|i: int| 0 <= i < base.len() && (#[trigger] base[i]).name == name;
        assert(names[i] == name);
    }
    if kept.contains(name) {
        let i = kept.index_of(name);
        assert(current[i].name == name);
    }
    if exists|i: int| 0 <= i < current.len() && (#[trigger] current[i]).name == name {
        let i = choose|i: int| 0 <= i < current.len() && (#[trigger] current[i]).name == name;
        assert(kept[i] == name);
    }
}

proof fn entry_place_in(list: Seq<TableEntryModel>, x: TableEntryModel, at: int)
    requires
        0 <= at <= list.len(),
    ensures
        at <= dump::entry_place(list, x, at) <= list.len(),
    decreases list.len() - at,
{
    if at < list.len() && !assoc::text_less(x.name, list[at].name) {
        entry_place_in(list, x, at + 1);
    }
}

/// Sorting the entries of a manifest loses none and adds none.
pub proof fn sorting_keeps_the_entries(list: Seq<TableEntryModel>, n: int)
    requires
        0 <= n <= list.len(),
    ensures
        dump::entries_in_order(list, n).to_multiset() == list.take(n).to_multiset(),
        dump::entries_in_order(list, n).len() == n,
    decreases n,
{
    if n > 0 {
        sorting_keeps_the_entries(list, n - 1);
        let before = dump::entries_in_order(list, n - 1);
        let x = list[n - 1];
        let p = dump::entry_place(before, x, 0);
        entry_place_in(before, x, 0);
        before.to_multiset_ensures();
        list.take(n - 1).to_multiset_ensures();
        assert(list.take(n) =~= list.take(n - 1).push(x));
        let after = before.insert(p, x);
        after.to_multiset_ensures();
        assert(after.remove(p) =~= before);
        assert(after[p] == x);
        assert(after.contains(x));
        assert(after.to_multiset() =~= before.to_multiset().insert(x));
    } else {
        assert(list.take(0) =~= Seq::empty());
    }
}

// ---------------------------------------------------------------------------------------------
// What is restored
// ---------------------------------------------------------------------------------------------
/// Data are accepted exactly where the file has the checksum of the manifest, can be unpacked, and
/// has the size that the manifest says.
pub proof fn damaged_data_are_refused(
    t: TableEntryModel,
    stream: Seq<u8>,
    content: Result<Seq<u8>, Seq<char>>,
)
    ensures
        dump::checked_data(t, stream, content) is Ok <==> t.data_file_checksum == Some(
            update::checksum_of(stream),
        ) && (content matches Ok(data) && data.len() == t.uncompressed_bytes),
{
}

/// An entry has its data file with a checksum, or neither where the table is unchanged.
pub proof fn entries_have_their_file(t: TableEntryModel)
    ensures
        dump::file_of(t) matches Ok(file) ==> file == t.data_file && (file is Some
            <==> t.data_file_checksum is Some) && (file is None ==> t.action
            == TableAction::Unchanged),
        t.data_file is Some && t.data_file_checksum is None ==> dump::file_of(t) is Err,
        t.data_file is None && t.data_file_checksum is Some ==> dump::file_of(t) is Err,
        t.data_file is None && t.action == TableAction::Replace ==> dump::file_of(t) is Err,
{
}

/// Whether a plan writes a table anew at some place: it drops it, makes it, loads its data and
/// checks it, in that order.
pub open spec fn rewrites(
    plan: Seq<RestoreStep>,
    p: int,
    t: TableEntryModel,
    i: int,
    verify: bool,
) -> bool {
    &&& 0 <= p
    &&& p + 1 < plan.len()
    &&& plan[p] == RestoreStep::DropTable(i as usize)
    &&& plan[p + 1] == RestoreStep::CreateTable(i as usize)
    &&& t.data_file is Some ==> p + 2 < plan.len() && plan[p + 2] == RestoreStep::LoadData(
        i as usize,
    )
    &&& verify && t.data_file is Some ==> p + 3 < plan.len() && plan[p + 3]
        == RestoreStep::CheckTable(i as usize)
    &&& verify && t.data_file is None ==> p + 2 < plan.len() && plan[p + 2]
        == RestoreStep::CheckTable(i as usize)
}

proof fn rewritten(
    head: Seq<RestoreStep>,
    tables: Seq<TableEntryModel>,
    at: int,
    o: RestoreOptions,
    i: int,
)
    requires
        0 <= at <= i < tables.len(),
        tables[i].action != TableAction::Unchanged,
        o.replace_tables,
    ensures
        exists|p: int| #[trigger]
            rewrites(head + dump::steps_from(tables, at, o), p, tables[i], i, o.verify),
    decreases i - at,
{
    let all = head + dump::steps_from(tables, at, o);
    if at == i {
        let steps = dump::table_steps(tables[at], at as usize, o);
        let rest = dump::steps_from(tables, at + 1, o);
        let p = head.len() as int;
        assert(all =~= head + (steps + rest));
        assert(all[p] == steps[0]);
        assert(all[p + 1] == steps[1]);
        if steps.len() > 2 {
            assert(all[p + 2] == steps[2]);
        }
        if steps.len() > 3 {
            assert(all[p + 3] == steps[3]);
        }
        assert(rewrites(all, p, tables[i], i, o.verify));
    } else if tables[at].action == TableAction::Unchanged {
        rewritten(head, tables, at + 1, o, i);
    } else {
        let steps = dump::table_steps(tables[at], at as usize, o);
        rewritten(head + steps, tables, at + 1, o, i);
        assert((head + steps) + dump::steps_from(tables, at + 1, o) =~= all);
    }
}

/// A restore drops the tables that are gone, and writes each changed table anew; an increment first
/// has the database checked against its parent, unless that was waived.
pub proof fn restores_follow_the_manifest(m: ManifestModel, o: RestoreOptions, i: int)
    requires
        o.replace_tables,
    ensures
        ({
            let plan = dump::restore_plan(m, o);
            &&& m.kind == BackupKind::Incremental && !o.skip_chain_check ==> plan.len() > 0 && plan[0]
                == RestoreStep::CheckParent
            &&& 0 <= i < m.dropped_tables.len() && i <= usize::MAX ==> plan.contains(
                RestoreStep::DropGone(i as usize),
            )
            &&& 0 <= i < m.tables.len() && m.tables[i].action != TableAction::Unchanged ==> exists|
                p: int,
            | #[trigger] rewrites(plan, p, m.tables[i], i, o.verify)
        }),
{
    let plan = dump::restore_plan(m, o);
    let first = dump::first_step(m.kind, o);
    let gone = dump::gone_steps(m.dropped_tables.len());
    let head = first + gone;
    assert(plan == head + dump::steps_from(m.tables, 0, o));
    if 0 <= i < m.dropped_tables.len() {
        assert(gone[i] == RestoreStep::DropGone(i as usize));
        assert(plan[first.len() + i] == gone[i]);
    }
    if 0 <= i < m.tables.len() && m.tables[i].action != TableAction::Unchanged {
        rewritten(head, m.tables, 0, o, i);
    }
}

proof fn refusing(tables: Seq<TableEntryModel>, at: int, o: RestoreOptions)
    requires
        0 <= at <= tables.len(),
        !o.replace_tables,
    ensures
        forall|i: int|
            0 <= i < dump::steps_from(tables, at, o).len() ==> (#[trigger] dump::steps_from(
                tables,
                at,
                o,
            )[i]) is Refuse,
    decreases tables.len() - at,
{
    if at < tables.len() && tables[at].action == TableAction::Unchanged {
        refusing(tables, at + 1, o);
    }
}

/// Where tables must not be replaced, a restore drops and writes none.
pub proof fn restores_replace_on_request_only(m: ManifestModel, o: RestoreOptions, i: int)
    requires
        !o.replace_tables,
        0 <= i < dump::restore_plan(m, o).len(),
    ensures
        !(dump::restore_plan(m, o)[i] is DropTable),
        !(dump::restore_plan(m, o)[i] is CreateTable),
        !(dump::restore_plan(m, o)[i] is LoadData),
{
    refusing(m.tables, 0, o);
    let first = dump::first_step(m.kind, o);
    let gone = dump::gone_steps(m.dropped_tables.len());
    let head = first + gone;
    let steps = dump::steps_from(m.tables, 0, o);
    let plan = dump::restore_plan(m, o);
    if i < first.len() {
        assert(plan[i] == first[i]);
    } else if i < head.len() {
        assert(plan[i] == gone[i - first.len()]);
    } else {
        assert(plan[i] == steps[i - head.len()]);
    }
}

} // verus!
