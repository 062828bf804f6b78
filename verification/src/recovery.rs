//! Recovery of files after a crash: catalog snapshots, table rewrites and table drops.
use crate::database;
use crate::error;
use crate::error::{DbError, DbResult};
use crate::search;
use crate::text;
use vstd::prelude::*;

verus! {

// ---------------------------------------------------------------------------------------------
// The catalog file
// ---------------------------------------------------------------------------------------------
/// Which of the catalog's files there are.
#[derive(Debug, Clone, Copy, PartialEq, Eq, Structural)]
pub struct SnapshotFiles {
    pub schema: bool,
    pub temporary: bool,
    pub backup: bool,
}

#[derive(Debug, Clone, Copy, PartialEq, Eq, Structural)]
pub enum SnapshotStep {
    RemoveTemporary,
    /// The new catalog written to the temporary file.
    WriteTemporary,
    RemoveBackup,
    /// The catalog becomes the backup.
    MoveAside,
    /// The temporary file becomes the catalog.
    Publish,
    /// The backup becomes the catalog.
    Restore,
}

impl DeepView for SnapshotStep {
    type V = SnapshotStep;

    open spec fn deep_view(&self) -> SnapshotStep {
        *self
    }
}

/// The contents of the catalog's files.
#[verifier::ext_equal]
pub struct SnapshotContents<C> {
    pub schema: Option<C>,
    pub temporary: Option<C>,
    pub backup: Option<C>,
}

pub open spec fn files_of<C>(f: SnapshotContents<C>) -> SnapshotFiles {
    SnapshotFiles {
        schema: f.schema is Some,
        temporary: f.temporary is Some,
        backup: f.backup is Some,
    }
}

/// The files after a step; `content` is what is written.
pub open spec fn snapshot_stepped<C>(
    f: SnapshotContents<C>,
    s: SnapshotStep,
    content: C,
) -> SnapshotContents<C> {
    match s {
        SnapshotStep::RemoveTemporary => SnapshotContents { temporary: None, ..f },
        SnapshotStep::WriteTemporary => SnapshotContents { temporary: Some(content), ..f },
        SnapshotStep::RemoveBackup => SnapshotContents { backup: None, ..f },
        SnapshotStep::MoveAside => SnapshotContents { backup: f.schema, schema: None, ..f },
        SnapshotStep::Publish => SnapshotContents { schema: f.temporary, temporary: None, ..f },
        SnapshotStep::Restore => SnapshotContents { schema: f.backup, backup: None, ..f },
    }
}

/// The files after the first `n` steps.
pub open spec fn snapshot_after<C>(
    f: SnapshotContents<C>,
    steps: Seq<SnapshotStep>,
    content: C,
    n: int,
) -> SnapshotContents<C>
    decreases n,
{
    if n <= 0 {
        f
    } else {
        snapshot_stepped(snapshot_after(f, steps, content, n - 1), steps[n - 1], content)
    }
}

/// The steps that save a catalog.
pub open spec fn save_steps(f: SnapshotFiles) -> Seq<SnapshotStep> {
    let a = if f.temporary {
        seq![SnapshotStep::RemoveTemporary, SnapshotStep::WriteTemporary]
    } else {
        seq![SnapshotStep::WriteTemporary]
    };
    let b = if f.backup {
        a.push(SnapshotStep::RemoveBackup)
    } else {
        a
    };
    if f.schema {
        b.push(SnapshotStep::MoveAside).push(SnapshotStep::Publish).push(
            SnapshotStep::RemoveBackup,
        )
    } else {
        b.push(SnapshotStep::Publish)
    }
}

pub fn write_schema_snapshot(f: SnapshotFiles) -> (r: Vec<SnapshotStep>)
    ensures
        r@ == save_steps(f),
{
    let mut out: Vec<SnapshotStep> = Vec::new();
    if f.temporary {
        out.push(SnapshotStep::RemoveTemporary);
    }
    out.push(SnapshotStep::WriteTemporary);
    assert(out@ =~= if f.temporary {
        seq![SnapshotStep::RemoveTemporary, SnapshotStep::WriteTemporary]
    } else {
        seq![SnapshotStep::WriteTemporary]
    });
    if f.backup {
        out.push(SnapshotStep::RemoveBackup);
    }
    if f.schema {
        out.push(SnapshotStep::MoveAside);
    }
    out.push(SnapshotStep::Publish);
    if f.schema {
        out.push(SnapshotStep::RemoveBackup);
    }
    out
}

/// The steps that recover a catalog: a published one counts, else the backup, else the temporary
/// file.
pub open spec fn recovery_steps(f: SnapshotFiles) -> Seq<SnapshotStep> {
    if f.schema {
        (if f.temporary {
            seq![SnapshotStep::RemoveTemporary]
        } else {
            Seq::empty()
        }) + (if f.backup {
            seq![SnapshotStep::RemoveBackup]
        } else {
            Seq::empty()
        })
    } else if f.backup {
        seq![SnapshotStep::Restore] + (if f.temporary {
            seq![SnapshotStep::RemoveTemporary]
        } else {
            Seq::empty()
        })
    } else if f.temporary {
        seq![SnapshotStep::Publish]
    } else {
        Seq::empty()
    }
}

pub fn recover_schema_snapshot(f: SnapshotFiles) -> (r: Vec<SnapshotStep>)
    ensures
        r@ == recovery_steps(f),
{
    let mut out: Vec<SnapshotStep> = Vec::new();
    if f.schema {
        if f.temporary {
            out.push(SnapshotStep::RemoveTemporary);
        }
        if f.backup {
            out.push(SnapshotStep::RemoveBackup);
        }
    } else if f.backup {
        out.push(SnapshotStep::Restore);
        if f.temporary {
            out.push(SnapshotStep::RemoveTemporary);
        }
    } else if f.temporary {
        out.push(SnapshotStep::Publish);
    }
    assert(out@ =~= recovery_steps(f));
    out
}

/// The files once a catalog has been recovered.
pub open spec fn recovered<C>(f: SnapshotContents<C>, content: C) -> SnapshotContents<C> {
    let steps = recovery_steps(files_of(f));
    snapshot_after(f, steps, content, steps.len() as int)
}

/// Recovery leaves the catalog alone in its place, with the best of the contents that there were.
pub proof fn recovery_leaves_one_catalog<C>(f: SnapshotContents<C>, content: C)
    ensures
        recovered(f, content) == (SnapshotContents {
            schema: if f.schema is Some {
                f.schema
            } else if f.backup is Some {
                f.backup
            } else {
                f.temporary
            },
            temporary: None,
            backup: None,
        }),
{
    reveal_with_fuel(snapshot_after, 3);
    let steps = recovery_steps(files_of(f));
    if f.schema is Some && f.temporary is Some && f.backup is Some {
        assert(steps =~= seq![SnapshotStep::RemoveTemporary, SnapshotStep::RemoveBackup]);
    }
    if f.schema is None && f.backup is Some && f.temporary is Some {
        assert(steps =~= seq![SnapshotStep::Restore, SnapshotStep::RemoveTemporary]);
    }
}

/// A crash between any two steps of saving a catalog leaves either the catalog that stood before
/// or the new one, and after the last step it is the new one.
pub proof fn saving_survives_a_crash<C>(f: SnapshotContents<C>, content: C, n: int)
    requires
        f.schema is Some,
        f.temporary is None,
        f.backup is None,
        0 <= n <= save_steps(files_of(f)).len(),
    ensures
        ({
            let steps = save_steps(files_of(f));
            let left = recovered(snapshot_after(f, steps, content, n), content);
            (left.schema == f.schema || left.schema == Some(content)) && (n == steps.len()
                ==> left.schema == Some(content))
        }),
{
    let steps = save_steps(files_of(f));
    assert(steps =~= seq![
        SnapshotStep::WriteTemporary,
        SnapshotStep::MoveAside,
        SnapshotStep::Publish,
        SnapshotStep::RemoveBackup,
    ]);
    reveal_with_fuel(snapshot_after, 5);
    recovery_leaves_one_catalog(snapshot_after(f, steps, content, n), content);
}

// ---------------------------------------------------------------------------------------------
// Markers
// ---------------------------------------------------------------------------------------------
/// What a table rewrite under way says of itself.
#[derive(Debug)]
pub struct TableRewriteMarker {
    pub table: String,
    pub old_next_page_number: u32,
    pub new_next_page_number: u32,
    pub old_generation: u64,
    pub new_generation: u64,
    pub staging_dir: String,
    pub backup_dir: String,
}

/// What a table drop under way says of itself.
#[derive(Debug)]
pub struct TableDropMarker {
    pub table: String,
    pub backup_dir: String,
}

pub open spec fn is_marker(name: Seq<char>, prefix: Seq<char>) -> bool {
    search::starts_with(name, prefix) && search::ends_with(name, ".json"@)
}

pub fn is_rewrite_marker_name(name: &str) -> (r: bool)
    ensures
        r == is_marker(name@, ".rewrite-"@),
{
    search::text_starts_with(name, ".rewrite-") && search::text_ends_with(name, ".json")
}

pub fn is_drop_marker_name(name: &str) -> (r: bool)
    ensures
        r == is_marker(name@, ".drop-"@),
{
    search::text_starts_with(name, ".drop-") && search::text_ends_with(name, ".json")
}

/// Whether a part of a path names something: empty parts and single dots do not.
pub open spec fn names_something(part: Seq<char>) -> bool {
    part.len() > 0 && part != seq!['.']
}

/// How many of the first `n` parts of a path name something.
pub open spec fn parts_upto(parts: Seq<Seq<char>>, n: int) -> nat
    decreases n,
{
    if n <= 0 || n > parts.len() {
        0
    } else if names_something(parts[n - 1]) {
        parts_upto(parts, n - 1) + 1
    } else {
        parts_upto(parts, n - 1)
    }
}

/// Whether a relative path, written with slashes, has one part.
pub open spec fn one_part(path: Seq<char>) -> bool {
    let parts = search::split_char(path, '/');
    parts_upto(parts, parts.len() as int) == 1
}

fn has_one_part(path: &str) -> (r: bool)
    ensures
        r == one_part(path@),
{
    let parts = search::split_on(path, '/');
    let ghost all = parts.deep_view();
    let mut count: usize = 0;
    let mut i: usize = 0;
    while i < parts.len()
        invariant
            i <= parts@.len(),
            all == parts.deep_view(),
            count == parts_upto(all, i as int),
            count <= i,
        decreases parts@.len() - i,
    {
        assert(all[i as int] == parts@[i as int]@);
        let c = text::chars_of(parts[i].as_str());
        let dot = c.len() == 1 && c[0] == '.';
        assert(dot == (c@ == seq!['.'])) by {
            if dot {
                assert(c@ =~= seq!['.']);
            }
            if c@ == seq!['.'] {
                assert(c@[0] == '.');
            }
        }
        if c.len() > 0 && !dot {
            count += 1;
        }
        i += 1;
    }
    assert(all.len() == parts@.len());
    count == 1
}

pub open spec fn safe_part(prefix: Seq<char>, path: Seq<char>) -> bool {
    search::starts_with(path, prefix) && one_part(path)
}

/// Why a rewrite marker is not to be followed: it may name files of its own kind only.
pub open spec fn rewrite_refusal(table: Seq<char>, staging: Seq<char>, backup: Seq<char>) -> Option<
    Seq<char>,
> {
    match database::component(table) {
        Err(e) => Some(e),
        Ok(_) => if !safe_part(".rewrite-"@, staging) {
            Some("Unsafe rewrite path '"@ + staging + "'"@)
        } else if !safe_part(".rewrite-"@, backup) {
            Some("Unsafe rewrite path '"@ + backup + "'"@)
        } else {
            None
        },
    }
}

pub fn validate_rewrite_marker(m: &TableRewriteMarker) -> (r: DbResult<()>)
    ensures
        match rewrite_refusal(m.table@, m.staging_dir@, m.backup_dir@) {
            Some(e) => r matches Err(x) && x.message@ == e,
            None => r is Ok,
        },
{
    match database::rewrite_component(m.table.as_str()) {
        Err(e) => {
            return Err(e);
        },
        Ok(_) => {},
    }
    let staging = m.staging_dir.as_str();
    if !search::text_starts_with(staging, ".rewrite-") || !has_one_part(staging) {
        return Err(DbError::new(error::cat3("Unsafe rewrite path '", staging, "'")));
    }
    let backup = m.backup_dir.as_str();
    if !search::text_starts_with(backup, ".rewrite-") || !has_one_part(backup) {
        return Err(DbError::new(error::cat3("Unsafe rewrite path '", backup, "'")));
    }
    Ok(())
}

pub open spec fn drop_refusal(table: Seq<char>, backup: Seq<char>) -> Option<Seq<char>> {
    match database::component(table) {
        Err(e) => Some(e),
        Ok(_) => if !safe_part(".drop-"@, backup) {
            Some("Unsafe drop path '"@ + backup + "'"@)
        } else {
            None
        },
    }
}

pub fn validate_drop_marker(m: &TableDropMarker) -> (r: DbResult<()>)
    ensures
        match drop_refusal(m.table@, m.backup_dir@) {
            Some(e) => r matches Err(x) && x.message@ == e,
            None => r is Ok,
        },
{
    match database::rewrite_component(m.table.as_str()) {
        Err(e) => {
            return Err(e);
        },
        Ok(_) => {},
    }
    let backup = m.backup_dir.as_str();
    if !search::text_starts_with(backup, ".drop-") || !has_one_part(backup) {
        return Err(DbError::new(error::cat3("Unsafe drop path '", backup, "'")));
    }
    Ok(())
}

/// The marker of a rewrite of a table, and the names of its files.
pub fn rewrite_marker(table: &str, old_pages: u32, new_pages: u32, generation: u64) -> (r: DbResult<
    (TableRewriteMarker, String),
>)
    ensures
        match database::component(table@) {
            Err(e) => r matches Err(x) && x.message@ == e,
            Ok(safe) => r matches Ok(made) && made.0.table@ == table@
                && made.0.old_next_page_number == old_pages && made.0.new_next_page_number
                == new_pages && made.0.old_generation == generation && made.0.new_generation
                == generation.saturating_add(1) && made.0.staging_dir@ == ".rewrite-"@ + safe
                + ".staging"@ && made.0.backup_dir@ == ".rewrite-"@ + safe + ".backup"@
                && made.1@ == ".rewrite-"@ + safe + ".json"@,
        },
{
    match database::rewrite_component(table) {
        Err(e) => Err(e),
        Ok(safe) => {
            let marker = TableRewriteMarker {
                table: text::copy_text(table),
                old_next_page_number: old_pages,
                new_next_page_number: new_pages,
                old_generation: generation,
                new_generation: generation.saturating_add(1),
                staging_dir: error::cat3(".rewrite-", safe.as_str(), ".staging"),
                backup_dir: error::cat3(".rewrite-", safe.as_str(), ".backup"),
            };
            Ok((marker, error::cat3(".rewrite-", safe.as_str(), ".json")))
        },
    }
}

pub fn drop_marker(table: &str) -> (r: DbResult<(TableDropMarker, String)>)
    ensures
        match database::component(table@) {
            Err(e) => r matches Err(x) && x.message@ == e,
            Ok(safe) => r matches Ok(made) && made.0.table@ == table@ && made.0.backup_dir@
                == ".drop-"@ + safe + ".backup"@ && made.1@ == ".drop-"@ + safe + ".json"@,
        },
{
    match database::rewrite_component(table) {
        Err(e) => Err(e),
        Ok(safe) => {
            let marker = TableDropMarker {
                table: text::copy_text(table),
                backup_dir: error::cat3(".drop-", safe.as_str(), ".backup"),
            };
            Ok((marker, error::cat3(".drop-", safe.as_str(), ".json")))
        },
    }
}

/// Why a new rewrite or drop of a table cannot begin: an earlier one left files behind.
pub fn unfinished(table: &str, what: &str, left_over: bool) -> (r: DbResult<()>)
    ensures
        match r {
            Ok(_) => !left_over,
            Err(e) => left_over && e.message@ == "Table '"@ + table@ + "' has an unfinished "@
                + what@,
        },
{
    if left_over {
        Err(DbError::new(error::cat4("Table '", table, "' has an unfinished ", what)))
    } else {
        Ok(())
    }
}

// ---------------------------------------------------------------------------------------------
// Table folders
// ---------------------------------------------------------------------------------------------
/// Which folders of a table there are.
#[derive(Debug, Clone, Copy, PartialEq, Eq, Structural)]
pub struct TableFolders {
    pub active: bool,
    pub staging: bool,
    pub backup: bool,
}

#[derive(Debug, Clone, Copy, PartialEq, Eq, Structural)]
pub enum FolderStep {
    /// The new rows written to the staging folder.
    WriteStaging,
    /// The active folder becomes the backup.
    MoveAside,
    /// The staging folder becomes active.
    Promote,
    /// The backup becomes active.
    Restore,
    RemoveActive,
    RemoveStaging,
    RemoveBackup,
}

#[verifier::ext_equal]
pub struct FolderContents<C> {
    pub active: Option<C>,
    pub staging: Option<C>,
    pub backup: Option<C>,
}

pub open spec fn folders_of<C>(f: FolderContents<C>) -> TableFolders {
    TableFolders {
        active: f.active is Some,
        staging: f.staging is Some,
        backup: f.backup is Some,
    }
}

pub open spec fn folder_stepped<C>(f: FolderContents<C>, s: FolderStep, content: C) -> FolderContents<
    C,
> {
    match s {
        FolderStep::WriteStaging => FolderContents { staging: Some(content), ..f },
        FolderStep::MoveAside => FolderContents { backup: f.active, active: None, ..f },
        FolderStep::Promote => FolderContents { active: f.staging, staging: None, ..f },
        FolderStep::Restore => FolderContents { active: f.backup, backup: None, ..f },
        FolderStep::RemoveActive => FolderContents { active: None, ..f },
        FolderStep::RemoveStaging => FolderContents { staging: None, ..f },
        FolderStep::RemoveBackup => FolderContents { backup: None, ..f },
    }
}

pub open spec fn folder_after<C>(
    f: FolderContents<C>,
    steps: Seq<FolderStep>,
    content: C,
    n: int,
) -> FolderContents<C>
    decreases n,
{
    if n <= 0 {
        f
    } else {
        folder_stepped(folder_after(f, steps, content, n - 1), steps[n - 1], content)
    }
}

/// The steps that rewrite a table; the catalog names the new rows only after the last.
pub open spec fn rewrite_steps(active: bool) -> Seq<FolderStep> {
    if active {
        seq![FolderStep::WriteStaging, FolderStep::MoveAside, FolderStep::Promote]
    } else {
        seq![FolderStep::WriteStaging, FolderStep::Promote]
    }
}

pub fn rewrite_table_steps(active: bool) -> (r: Vec<FolderStep>)
    ensures
        r@ == rewrite_steps(active),
{
    let mut out: Vec<FolderStep> = Vec::new();
    out.push(FolderStep::WriteStaging);
    if active {
        out.push(FolderStep::MoveAside);
    }
    out.push(FolderStep::Promote);
    assert(out@ =~= rewrite_steps(active));
    out
}

/// The steps that recover a table from a rewrite, given whether the catalog names the new rows.
/// A table whose new rows are named but nowhere to be found cannot be recovered.
pub open spec fn rewrite_recovery(committed: bool, f: TableFolders) -> Option<Seq<FolderStep>> {
    if committed {
        if !f.active && !f.staging {
            None
        } else {
            let promote = !f.active;
            Some(
                (if promote {
                    seq![FolderStep::Promote]
                } else {
                    Seq::empty()
                }) + (if f.backup {
                    seq![FolderStep::RemoveBackup]
                } else {
                    Seq::empty()
                }) + (if f.staging && !promote {
                    seq![FolderStep::RemoveStaging]
                } else {
                    Seq::empty()
                }),
            )
        }
    } else {
        Some(
            (if f.backup {
                if f.active {
                    seq![FolderStep::RemoveActive, FolderStep::Restore]
                } else {
                    seq![FolderStep::Restore]
                }
            } else {
                Seq::empty()
            }) + (if f.staging {
                seq![FolderStep::RemoveStaging]
            } else {
                Seq::empty()
            }),
        )
    }
}

pub fn recover_table_rewrite(table: &str, committed: bool, f: TableFolders) -> (r: DbResult<
    Vec<FolderStep>,
>)
    ensures
        match rewrite_recovery(committed, f) {
            Some(steps) => r matches Ok(list) && list@ == steps,
            None => r matches Err(e) && e.message@ == "Committed rewrite for '"@ + table@
                + "' has no active data"@,
        },
{
    let mut out: Vec<FolderStep> = Vec::new();
    if committed {
        if !f.active && !f.staging {
            return Err(
                DbError::new(
                    error::cat3("Committed rewrite for '", table, "' has no active data"),
                ),
            );
        }
        if !f.active {
            out.push(FolderStep::Promote);
        }
        if f.backup {
            out.push(FolderStep::RemoveBackup);
        }
        if f.staging && f.active {
            out.push(FolderStep::RemoveStaging);
        }
    } else {
        if f.backup {
            if f.active {
                out.push(FolderStep::RemoveActive);
            }
            out.push(FolderStep::Restore);
        }
        if f.staging {
            out.push(FolderStep::RemoveStaging);
        }
    }
    assert(out@ =~= rewrite_recovery(committed, f)->0);
    Ok(out)
}

/// The steps that finish a rewrite that the catalog names; another is left alone.
pub fn finalize_table_rewrite(committed: bool, f: TableFolders) -> (r: Option<Vec<FolderStep>>)
    ensures
        r is Some == committed,
        r matches Some(list) ==> list@ == (if f.backup {
            seq![FolderStep::RemoveBackup]
        } else {
            Seq::empty()
        }) + (if f.staging {
            seq![FolderStep::RemoveStaging]
        } else {
            Seq::empty()
        }),
{
    if !committed {
        return None;
    }
    let mut out: Vec<FolderStep> = Vec::new();
    if f.backup {
        out.push(FolderStep::RemoveBackup);
    }
    if f.staging {
        out.push(FolderStep::RemoveStaging);
    }
    assert(out@ =~= (if f.backup {
        seq![FolderStep::RemoveBackup]
    } else {
        Seq::empty()
    }) + (if f.staging {
        seq![FolderStep::RemoveStaging]
    } else {
        Seq::empty()
    }));
    Some(out)
}

/// The steps that recover a table from a drop: while the catalog names it, it comes back.
pub open spec fn drop_recovery(named: bool, f: TableFolders) -> Seq<FolderStep> {
    if named {
        if !f.active && f.backup {
            seq![FolderStep::Restore]
        } else {
            Seq::empty()
        }
    } else if f.backup {
        seq![FolderStep::RemoveBackup]
    } else {
        Seq::empty()
    }
}

pub fn recover_table_drop(named: bool, f: TableFolders) -> (r: Vec<FolderStep>)
    ensures
        r@ == drop_recovery(named, f),
{
    let mut out: Vec<FolderStep> = Vec::new();
    if named {
        if !f.active && f.backup {
            out.push(FolderStep::Restore);
        }
    } else if f.backup {
        out.push(FolderStep::RemoveBackup);
    }
    assert(out@ =~= drop_recovery(named, f));
    out
}

/// The steps that finish a drop that the catalog has forgotten; another is left alone.
pub fn finalize_table_drop(named: bool, f: TableFolders) -> (r: Option<Vec<FolderStep>>)
    ensures
        r is None == named,
        r matches Some(list) ==> list@ == drop_recovery(false, f),
{
    if named {
        None
    } else {
        Some(recover_table_drop(false, f))
    }
}

/// The folders of a table recovered from a rewrite.
pub open spec fn rewrite_recovered<C>(committed: bool, f: FolderContents<C>, content: C) -> FolderContents<
    C,
> {
    match rewrite_recovery(committed, folders_of(f)) {
        Some(steps) => folder_after(f, steps, content, steps.len() as int),
        None => f,
    }
}

/// Recovery leaves one folder: the new rows if the catalog names them, else the old.
pub proof fn rewrite_recovery_leaves_one_folder<C>(
    committed: bool,
    f: FolderContents<C>,
    content: C,
)
    requires
        committed ==> f.active is Some || f.staging is Some,
    ensures
        rewrite_recovered(committed, f, content) == (FolderContents {
            active: if committed {
                if f.active is Some {
                    f.active
                } else {
                    f.staging
                }
            } else if f.backup is Some {
                f.backup
            } else {
                f.active
            },
            staging: None,
            backup: None,
        }),
{
    reveal_with_fuel(folder_after, 4);
    let steps = rewrite_recovery(committed, folders_of(f))->0;
    if committed {
        if f.active is Some {
            if f.backup is Some && f.staging is Some {
                assert(steps =~= seq![FolderStep::RemoveBackup, FolderStep::RemoveStaging]);
            }
        } else {
            if f.backup is Some {
                assert(steps =~= seq![FolderStep::Promote, FolderStep::RemoveBackup]);
            } else {
                assert(steps =~= seq![FolderStep::Promote]);
            }
        }
    } else if f.backup is Some {
        if f.active is Some && f.staging is Some {
            assert(steps =~= seq![
                FolderStep::RemoveActive,
                FolderStep::Restore,
                FolderStep::RemoveStaging,
            ]);
        } else if f.active is Some {
            assert(steps =~= seq![FolderStep::RemoveActive, FolderStep::Restore]);
        } else if f.staging is Some {
            assert(steps =~= seq![FolderStep::Restore, FolderStep::RemoveStaging]);
        }
    }
}

/// A crash between any two steps of a rewrite leaves the old rows, and once the catalog names the
/// new rows it leaves those.
pub proof fn rewriting_survives_a_crash<C>(f: FolderContents<C>, content: C, n: int)
    requires
        f.active is Some,
        f.staging is None,
        f.backup is None,
        0 <= n <= rewrite_steps(true).len(),
    ensures
        rewrite_recovered(
            false,
            folder_after(f, rewrite_steps(true), content, n),
            content,
        ).active == f.active,
        n == rewrite_steps(true).len() ==> rewrite_recovered(
            true,
            folder_after(f, rewrite_steps(true), content, n),
            content,
        ).active == Some(content),
{
    reveal_with_fuel(folder_after, 4);
    let g = folder_after(f, rewrite_steps(true), content, n);
    rewrite_recovery_leaves_one_folder(false, g, content);
    if n == 3 {
        rewrite_recovery_leaves_one_folder(true, g, content);
    }
}

/// A drop that the catalog does not know of yet is undone by recovery; one that it knows of is
/// finished.
pub proof fn dropping_survives_a_crash<C>(f: FolderContents<C>, content: C)
    requires
        f.active is Some,
        f.staging is None,
        f.backup is None,
    ensures
        ({
            let aside = folder_stepped(f, FolderStep::MoveAside, content);
            let back = drop_recovery(true, folders_of(aside));
            let gone = drop_recovery(false, folders_of(aside));
            folder_after(aside, back, content, back.len() as int) == f && folder_after(
                aside,
                gone,
                content,
                gone.len() as int,
            ) == (FolderContents { active: None::<C>, staging: None::<C>, backup: None::<C> })
        }),
{
    reveal_with_fuel(folder_after, 2);
}

// ---------------------------------------------------------------------------------------------
// Folders that hold pages only
// ---------------------------------------------------------------------------------------------
/// An entry of a folder.
#[derive(Debug)]
pub struct FolderEntry {
    pub name: String,
    pub is_file: bool,
    pub is_symlink: bool,
}

pub open spec fn holds_pages(name: Seq<char>) -> bool {
    (search::starts_with(name, "page_"@) && search::ends_with(name, ".bin"@)) || name
        == "pages.dat"@
}

pub open spec fn page_entry(e: FolderEntry) -> bool {
    e.is_file && !e.is_symlink && holds_pages(e.name@)
}

/// Whether a folder holds pages and nothing else.
pub fn is_page_only_directory(entries: &Vec<FolderEntry>) -> (r: bool)
    ensures
        r == (entries@.len() > 0 && forall|i: int|
            0 <= i < entries@.len() ==> page_entry(#[trigger] entries@[i])),
{
    let mut i: usize = 0;
    while i < entries.len()
        invariant
            i <= entries@.len(),
            forall|j: int| 0 <= j < i ==> page_entry(#[trigger] entries@[j]),
        decreases entries@.len() - i,
    {
        let name = entries[i].name.as_str();
        let legacy = search::text_starts_with(name, "page_") && search::text_ends_with(
            name,
            ".bin",
        );
        if !entries[i].is_file || entries[i].is_symlink || (!legacy && !text::text_equal(
            name,
            "pages.dat",
        )) {
            assert(!page_entry(entries@[i as int]));
            return false;
        }
        i += 1;
    }
    entries.len() > 0
}

} // verus!
