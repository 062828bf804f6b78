//! What backup chains and the framing of the log come to.
use crate::assoc;
use crate::backup;
use crate::backup::{ArchiveInfo, BackupModel, WalkModel};
use crate::commands::CommandModel;
use crate::num;
use crate::search;
use crate::text;
use crate::wal;
use crate::wal::{BatchPayloadModel, GroupPayloadModel, LegacyWriteCommand};
use vstd::prelude::*;

verus! {

// ---------------------------------------------------------------------------------------------
// Chains
// ---------------------------------------------------------------------------------------------
/// Whether a backup is later than another: it ends later in the log, or at the same place and was
/// made later.
pub open spec fn is_later(a: BackupModel, b: BackupModel) -> bool {
    b.to_lsn < a.to_lsn || (a.to_lsn == b.to_lsn && assoc::text_less(b.created_at, a.created_at))
}

proof fn later_transitive(a: BackupModel, b: BackupModel, c: BackupModel)
    requires
        !is_later(a, b),
        !is_later(b, c),
    ensures
        !is_later(a, c),
{
    if a.to_lsn == b.to_lsn && b.to_lsn == c.to_lsn && assoc::text_less(c.created_at, a.created_at) {
        assoc::less_total(b.created_at, a.created_at);
        if assoc::text_less(a.created_at, b.created_at) {
            assoc::less_transitive(c.created_at, a.created_at, b.created_at);
        }
    }
}

proof fn last_is(list: Seq<BackupModel>, at: int, best: Option<int>)
    requires
        0 <= at <= list.len(),
        best matches Some(b) ==> 0 <= b < at && list[b].format_version
            == backup::BACKUP_FORMAT_VERSION,
        forall|i: int|
            0 <= i < at && (#[trigger] list[i]).format_version == backup::BACKUP_FORMAT_VERSION ==> (
            best matches Some(b) && !is_later(list[i], list[b])),
    ensures
        backup::last_from(list, at, best) matches Some(b) ==> 0 <= b < list.len()
            && list[b].format_version == backup::BACKUP_FORMAT_VERSION && forall|i: int|
            0 <= i < list.len() && (#[trigger] list[i]).format_version
                == backup::BACKUP_FORMAT_VERSION ==> !is_later(list[i], list[b]),
        backup::last_from(list, at, best) is None ==> forall|i: int|
            0 <= i < list.len() ==> (#[trigger] list[i]).format_version
                != backup::BACKUP_FORMAT_VERSION,
    decreases list.len() - at,
{
    if at < list.len() {
        let next = if list[at].format_version == backup::BACKUP_FORMAT_VERSION && (best is None
            || backup::no_later(list[best->0], list[at])) {
            Some(at)
        } else {
            best
        };
        assert forall|i: int|
            0 <= i < at + 1 && (#[trigger] list[i]).format_version
                == backup::BACKUP_FORMAT_VERSION implies (next matches Some(b) && !is_later(
            list[i],
            list[b],
        )) by {
            assoc::less_irreflexive(list[at].created_at);
            if best is Some && assoc::text_less(list[best->0].created_at, list[at].created_at)
                && assoc::text_less(list[at].created_at, list[best->0].created_at) {
                assoc::less_transitive(
                    list[at].created_at,
                    list[best->0].created_at,
                    list[at].created_at,
                );
            }
            if i < at && next == Some(at) && best is Some {
                later_transitive(list[i], list[best->0], list[at]);
            }
        }
        last_is(list, at + 1, next);
    }
}

/// An increment is based on the latest backup of the current format: none of that format is later.
/// There is none only where no backup has that format.
pub proof fn increments_are_based_on_the_latest(list: Seq<BackupModel>)
    ensures
        backup::last_from(list, 0, None) matches Some(b) ==> 0 <= b < list.len()
            && list[b].format_version == backup::BACKUP_FORMAT_VERSION && forall|i: int|
            0 <= i < list.len() && (#[trigger] list[i]).format_version
                == backup::BACKUP_FORMAT_VERSION ==> !is_later(list[i], list[b]),
        backup::last_from(list, 0, None) is None ==> forall|i: int|
            0 <= i < list.len() ==> (#[trigger] list[i]).format_version
                != backup::BACKUP_FORMAT_VERSION,
{
    last_is(list, 0, None);
}

proof fn links_hold(
    chain: Seq<BackupModel>,
    archives: Seq<Result<ArchiveInfo, String>>,
    at: int,
)
    requires
        0 <= at,
        archives.len() + 1 >= chain.len(),
    ensures
        backup::links_fault(chain, archives, at) is None <==> forall|i: int|
            at <= i && i + 1 < chain.len() ==> link_holds(chain, archives, i),
    decreases chain.len() - at,
{
    if at + 1 < chain.len() {
        links_hold(chain, archives, at + 1);
        if forall|i: int| at <= i && i + 1 < chain.len() ==> link_holds(chain, archives, i) {
            assert(link_holds(chain, archives, at));
        }
    }
}

/// Whether an increment of a chain follows the backup before it: it names it as its parent, begins
/// in the log where that one ends, and its archive holds as many records and bytes as it says.
pub open spec fn link_holds(
    chain: Seq<BackupModel>,
    archives: Seq<Result<ArchiveInfo, String>>,
    i: int,
) -> bool {
    let m = chain[i + 1];
    &&& m.kind == "incremental"@
    &&& m.format_version == backup::BACKUP_FORMAT_VERSION
    &&& m.parent_id == Some(chain[i].id)
    &&& m.from_lsn == chain[i].to_lsn
    &&& m.wal_records == m.to_lsn - m.from_lsn
    &&& archives[i] matches Ok(info) && info.record_count == m.wal_records && info.bytes
        == m.wal_bytes
}

/// A chain is sound exactly where it begins with a full backup that has no parent, whose data are
/// there and end where it says, and each increment follows the backup before it.
pub proof fn chains_are_sound_where_every_link_holds(
    chain: Seq<BackupModel>,
    data_present: bool,
    full_lsn: u64,
    archives: Seq<Result<ArchiveInfo, String>>,
)
    requires
        archives.len() + 1 >= chain.len(),
    ensures
        backup::chain_fault(chain, data_present, full_lsn, archives) is None <==> {
            &&& chain.len() > 0
            &&& chain[0].kind == "full"@
            &&& chain[0].parent_id is None
            &&& data_present
            &&& full_lsn == chain[0].to_lsn
            &&& forall|i: int|
                0 <= i && i + 1 < chain.len() ==> #[trigger] link_holds(chain, archives, i)
        },
{
    links_hold(chain, archives, 0);
}

/// A walk towards a full backup takes up each backup it comes by; it ends with a full one, goes on
/// to the parent of an increment, and fails where that has none or was asked for before.
pub proof fn walks_lead_to_the_parent(w: WalkModel, m: BackupModel)
    ensures
        m.kind == "full"@ ==> (backup::walked(w, m) matches Ok(out) && out.1 is None && out.0.found
            == w.found.push(m)),
        m.kind != "full"@ && m.parent_id is None ==> backup::walked(w, m) is Err,
        m.kind != "full"@ ==> (m.parent_id matches Some(p) ==> if w.asked.contains(p) {
            backup::walked(w, m) is Err
        } else {
            backup::walked(w, m) matches Ok(out) && out.1 == Some(p) && out.0.found == w.found.push(m)
                && out.0.asked == w.asked.push(p)
        }),
{
}

/// The metadata of a backup are taken up as they stand, but for those of the first format, which did
/// not say where the backup ends. Others than those of the backup asked for are refused.
pub proof fn metadata_are_taken_up(id: Seq<char>, m: BackupModel, lsn: u64, bytes: u64)
    ensures
        backup::settled(id, m, lsn, bytes) is Ok <==> backup::safe_id(id) && m.id == id && (m.kind
            == "full"@ || m.kind == "incremental"@),
        backup::settled(id, m, lsn, bytes) matches Ok(out) ==> {
            &&& !(m.format_version == 0 && m.kind == "full"@) ==> out == m
            &&& m.format_version == 0 && m.kind == "full"@ ==> out.to_lsn == lsn && out.wal_records
                == lsn && out.wal_bytes == bytes && out.from_lsn == m.from_lsn
            &&& out.id == m.id && out.kind == m.kind && out.parent_id == m.parent_id
                && out.created_at == m.created_at
        },
{
}

/// A safe id cannot lead out of the folder of backups.
pub proof fn safe_ids_stay_inside(id: Seq<char>, i: int)
    requires
        backup::safe_id(id),
        0 <= i < id.len(),
    ensures
        id[i] != '/' && id[i] != '\\' && id[i] != '.' && id[i] != ':' && id[i] as u32 != 0,
{
    assert(backup::safe_char(id[i]));
}

/// A path lies in a folder where it is the folder or goes on behind it with a slash; a folder whose
/// name merely begins alike is another.
pub proof fn paths_lie_in_their_folder(dir: Seq<char>, rest: Seq<char>, c: char)
    requires
        dir.len() > 0,
        dir.last() != '/',
    ensures
        backup::lies_in(dir, dir),
        backup::lies_in(dir + "/"@ + rest, dir),
        c != '/' ==> !backup::lies_in(dir.push(c) + rest, dir),
{
    reveal_strlit("/");
    assert("/"@ =~= seq!['/']);
    assert(!search::ends_with(dir, "/"@)) by {
        if search::ends_with(dir, "/"@) {
            assert(dir.skip(dir.len() - 1)[0] == '/');
        }
    }
    let d = dir + "/"@;
    assert((dir + "/"@ + rest).take(d.len() as int) =~= d);
    let p = dir.push(c) + rest;
    if c != '/' {
        assert(p.len() > dir.len());
        if search::starts_with(p, d) {
            assert(p.take(d.len() as int)[dir.len() as int] == '/');
            assert(p[dir.len() as int] == c);
        }
    }
}

/// Clearing the way for a restore never takes away what marks it, anything outside the data folder,
/// or a folder that holds the backups.
pub proof fn clearing_spares_the_backups(
    marker: bool,
    path: Seq<char>,
    data_dir: Seq<char>,
    backups: Option<Seq<char>>,
)
    ensures
        backup::cleared(marker, path, data_dir, backups) == Ok::<bool, Seq<char>>(true) ==> !marker
            && backup::lies_in(path, data_dir) && (backups matches Some(b) ==> !backup::lies_in(
            b,
            path,
        )),
        marker ==> backup::cleared(marker, path, data_dir, backups) == Ok::<bool, Seq<char>>(false),
        !marker && !backup::lies_in(path, data_dir) ==> backup::cleared(
            marker,
            path,
            data_dir,
            backups,
        ) is Err,
        !marker && backup::lies_in(path, data_dir) && backups is None ==> backup::cleared(
            marker,
            path,
            data_dir,
            backups,
        ) == Ok::<bool, Seq<char>>(true),
{
}

// ---------------------------------------------------------------------------------------------
// The log
// ---------------------------------------------------------------------------------------------
/// A batch is binary behind its mark, and JSON otherwise.
pub proof fn batches_are_told_by_their_mark(b: Seq<u8>)
    ensures
        wal::batch_payload(seq![77u8, 68u8, 66u8, 50u8] + b) == BatchPayloadModel::Binary(b),
        b.len() > 0 && b[0] != 77u8 ==> wal::batch_payload(b) == BatchPayloadModel::Json(b),
        b.len() < 4 ==> wal::batch_payload(b) == BatchPayloadModel::Json(b),
{
    let m = seq![77u8, 68u8, 66u8, 50u8];
    let all = m + b;
    assert(all.take(4) =~= m);
    assert(all.skip(4) =~= b);
    if b.len() >= 4 && b[0] != 77u8 {
        assert(b.take(4)[0] == b[0]);
    }
}

/// A group has its time behind one mark and none behind the other; without a mark it is refused.
pub proof fn groups_are_told_by_their_mark(b: Seq<u8>)
    ensures
        wal::group_payload(seq![77u8, 68u8, 71u8, 50u8] + b) == Ok::<GroupPayloadModel, Seq<char>>(
            GroupPayloadModel::Timed(b),
        ),
        wal::group_payload(seq![77u8, 68u8, 71u8, 49u8] + b) == Ok::<GroupPayloadModel, Seq<char>>(
            GroupPayloadModel::Untimed(b),
        ),
        b.len() < 4 || b[0] != 77u8 ==> wal::group_payload(b) is Err,
{
    let two = seq![77u8, 68u8, 71u8, 50u8];
    let one = seq![77u8, 68u8, 71u8, 49u8];
    assert((two + b).take(4) =~= two);
    assert((two + b).skip(4) =~= b);
    assert((one + b).take(4) =~= one);
    assert((one + b).skip(4) =~= b);
    assert(one[3] != two[3]);
    assert(!wal::starts(one + b, wal::group_magic_v2())) by {
        assert((one + b).take(4)[3] == 49u8);
        assert(wal::group_magic_v2()[3] == 50u8);
    }
    if b.len() >= 4 && b[0] != 77u8 {
        assert(b.take(4)[0] == b[0]);
        assert(wal::group_magic_v2()[0] == 77u8 && wal::group_magic_v1()[0] == 77u8);
    }
}

/// Batches of the first and of the current version are read as they stand, and others are refused.
pub proof fn known_versions_are_read(version: u16, list: Seq<CommandModel>)
    ensures
        version == 1 || version == wal::WAL_BATCH_VERSION ==> wal::batch_of_version(version, list)
            == Ok::<Seq<CommandModel>, Seq<char>>(list),
        version != 1 && version != wal::WAL_BATCH_VERSION ==> wal::batch_of_version(
            version,
            list,
        ) is Err,
{
}

/// A group keeps its transactions, and its time where it has one.
pub proof fn groups_keep_their_time(
    version: u16,
    at: Option<u64>,
    list: Seq<Seq<CommandModel>>,
)
    ensures
        wal::group_of_version(true, version, at, list) matches Ok(g) ==> version
            == wal::WAL_GROUP_VERSION && g.committed_unix_ms == at && g.transactions == list,
        wal::group_of_version(false, version, at, list) matches Ok(g) ==> version == 1
            && g.committed_unix_ms is None && g.transactions == list,
        wal::group_of_version(true, wal::WAL_GROUP_VERSION, at, list) is Ok,
        wal::group_of_version(false, 1, at, list) is Ok,
{
}

/// What could be read in its current form counts, and only otherwise what was read in the old one.
pub proof fn the_current_form_counts_first(
    current: Result<wal::WalBatch, String>,
    old_form: Result<wal::LegacyWalBatch, String>,
)
    ensures
        current matches Ok(b) ==> wal::batch_read(current, old_form) == wal::batch_of_version(
            b.version,
            b.commands.deep_view(),
        ),
        current is Err ==> (old_form matches Ok(b) ==> wal::batch_read(current, old_form)
            == wal::batch_of_version(b.version, b.commands.deep_view())),
        current is Err && old_form is Err ==> wal::batch_read(current, old_form) is Err,
{
}

/// An old command is the same command in the current form.
pub proof fn old_commands_are_kept(c: LegacyWriteCommand)
    ensures
        c matches LegacyWriteCommand::Insert { database, table, row } ==> c.upgraded()
            == (CommandModel::Insert { database: database@, table: table@, row: row@ }),
        c matches LegacyWriteCommand::Delete { database, table, filter } ==> c.upgraded()
            == (CommandModel::Delete {
            database: database@,
            table: table@,
            filter: filter.deep_view(),
        }),
        c matches LegacyWriteCommand::Update { database, table, filter, assignments } ==> c.upgraded()
            == (CommandModel::Update {
            database: database@,
            table: table@,
            filter: filter.deep_view(),
            assignments: assignments.deep_view(),
        }),
        c matches LegacyWriteCommand::ReplaceRows { database, table, rows, affected_rows }
            ==> c.upgraded() == (CommandModel::ReplaceRows {
            database: database@,
            table: table@,
            rows: rows.deep_view(),
            affected_rows: affected_rows,
        }),
        c matches LegacyWriteCommand::Upsert { database, table, row, update_columns, ignore }
            ==> c.upgraded() == (CommandModel::Upsert {
            database: database@,
            table: table@,
            row: row@,
            update_columns: update_columns.deep_view(),
            ignore: ignore,
        }),
        c matches LegacyWriteCommand::DropTable { database, table } ==> c.upgraded()
            == (CommandModel::DropTable { database: database@, table: table@ }),
        c matches LegacyWriteCommand::DropDatabase(name) ==> c.upgraded()
            == CommandModel::DropDatabase(name@),
        c matches LegacyWriteCommand::CreateTable { database, schema } ==> (
        c.upgraded() matches CommandModel::CreateTable { database: d, schema: s } && d == database@
            && s.name == schema.name@ && s.columns == schema.columns.deep_view() && s.primary_key
            == schema.primary_key.deep_view() && s.indexes == schema.indexes.deep_view() && s.engine
            == schema.engine && s.create_sql == schema.create_sql.deep_view() && s.triggers.len()
            == 0),
{
}

} // verus!
