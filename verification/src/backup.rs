//! Backups: chains of a full backup and increments, and restoring them to a log sequence number or
//! a point in time.
use crate::assoc;
use crate::error;
use crate::error::{DbError, DbResult};
use crate::num;
use crate::search;
use crate::text;
use vstd::prelude::*;

verus! {

pub const BACKUP_FORMAT_VERSION: u32 = 1;

// ---------------------------------------------------------------------------------------------
// Outside values
// ---------------------------------------------------------------------------------------------
/// The milliseconds since 1970 that an RFC 3339 time names, or why it names none.
pub uninterp spec fn rfc3339_millis(s: Seq<char>) -> Result<i64, Seq<char>>;

pub open spec fn millis_model(r: Result<i64, String>) -> Result<i64, Seq<char>> {
    match r {
        Ok(t) => Ok(t),
        Err(e) => Err(e@),
    }
}

/// `chrono::DateTime::parse_from_rfc3339` followed by `timestamp_millis`: the time, or the text of
/// the parser's error. Both depend on the text alone.
#[verifier::external_body]
pub(crate) fn parse_rfc3339(s: &str) -> (r: Result<i64, String>)
    ensures
        millis_model(r) == rfc3339_millis(s@),
{
    match chrono::DateTime::parse_from_rfc3339(s) {
        Ok(t) => Ok(t.timestamp_millis()),
        Err(e) => Err(e.to_string()),
    }
}

/// `chrono::Utc::now` in digits: whatever the clock says.
#[verifier::external_body]
pub(crate) fn utc_stamp() -> (r: String) {
    chrono::Utc::now().format("%Y%m%d%H%M%S").to_string()
}

pub open spec fn is_hex(c: char) -> bool {
    ('0' <= c && c <= '9') || ('a' <= c && c <= 'f')
}

/// Thirty-six characters, hexadecimal digits with dashes at four places.
pub open spec fn is_unique_text(s: Seq<char>) -> bool {
    s.len() == 36 && forall|i: int|
        0 <= i < 36 ==> if i == 8 || i == 13 || i == 18 || i == 23 {
            #[trigger] s[i] == '-'
        } else {
            is_hex(s[i])
        }
}

/// `uuid::Uuid::new_v4` as text: thirty-six characters, hexadecimal digits with dashes at four
/// places. Which digits is left to chance.
#[verifier::external_body]
pub(crate) fn unique_text() -> (r: String)
    ensures
        is_unique_text(r@),
{
    uuid::Uuid::new_v4().to_string()
}

// ---------------------------------------------------------------------------------------------
// Metadata
// ---------------------------------------------------------------------------------------------
#[derive(Debug)]
pub struct BackupMetadata {
    pub format_version: u32,
    pub id: String,
    pub kind: String,
    pub created_at: String,
    pub parent_id: Option<String>,
    pub from_lsn: u64,
    pub to_lsn: u64,
    pub wal_records: u64,
    pub wal_bytes: u64,
}

#[verifier::ext_equal]
pub struct BackupModel {
    pub format_version: u32,
    pub id: Seq<char>,
    pub kind: Seq<char>,
    pub created_at: Seq<char>,
    pub parent_id: Option<Seq<char>>,
    pub from_lsn: u64,
    pub to_lsn: u64,
    pub wal_records: u64,
    pub wal_bytes: u64,
}

impl View for BackupMetadata {
    type V = BackupModel;

    open spec fn view(&self) -> BackupModel {
        BackupModel {
            format_version: self.format_version,
            id: self.id@,
            kind: self.kind@,
            created_at: self.created_at@,
            parent_id: self.parent_id.deep_view(),
            from_lsn: self.from_lsn,
            to_lsn: self.to_lsn,
            wal_records: self.wal_records,
            wal_bytes: self.wal_bytes,
        }
    }
}

impl DeepView for BackupMetadata {
    type V = BackupModel;

    open spec fn deep_view(&self) -> BackupModel {
        self@
    }
}

impl Clone for BackupMetadata {
    fn clone(&self) -> (r: Self)
        ensures
            r@ == self@,
    {
        BackupMetadata {
            format_version: self.format_version,
            id: text::copy_text(self.id.as_str()),
            kind: text::copy_text(self.kind.as_str()),
            created_at: text::copy_text(self.created_at.as_str()),
            parent_id: match &self.parent_id {
                Some(p) => Some(text::copy_text(p.as_str())),
                None => None,
            },
            from_lsn: self.from_lsn,
            to_lsn: self.to_lsn,
            wal_records: self.wal_records,
            wal_bytes: self.wal_bytes,
        }
    }
}

pub open spec fn safe_char(c: char) -> bool {
    text::is_alphanumeric(c) || c == '-' || c == '_'
}

/// Whether an id can name a folder and nothing else.
pub open spec fn safe_id(id: Seq<char>) -> bool {
    id.len() > 0 && forall|i: int| 0 <= i < id.len() ==> safe_char(#[trigger] id[i])
}

pub fn backup_id_is_safe(id: &str) -> (r: bool)
    ensures
        r == safe_id(id@),
{
    let c = text::chars_of(id);
    let mut i: usize = 0;
    while i < c.len()
        invariant
            i <= c@.len(),
            c@ == id@,
            forall|j: int| 0 <= j < i ==> safe_char(#[trigger] c@[j]),
        decreases c@.len() - i,
    {
        if !(text::char_is_alphanumeric(c[i]) || c[i] == '-' || c[i] == '_') {
            assert(!safe_char(c@[i as int]));
            return false;
        }
        i += 1;
    }
    c.len() > 0
}

/// The HTTP status that a request with an unsafe id is answered.
pub fn validate_backup_id(id: &str) -> (r: Option<u16>)
    ensures
        r == (if safe_id(id@) {
            None
        } else {
            Some(400u16)
        }),
{
    if backup_id_is_safe(id) {
        None
    } else {
        Some(400)
    }
}

/// The id of a backup of a kind, made at a time.
pub fn backup_id(kind: &str, stamp: &str, unique: &str) -> (r: String)
    ensures
        r@ == kind@ + "-"@ + stamp@ + "-"@ + unique@,
{
    error::cat5(kind, "-", stamp, "-", unique)
}

/// A new id: the kind, the time and something unique.
pub fn new_backup_id(kind: &str) -> (r: String)
    ensures
        exists|stamp: Seq<char>, unique: Seq<char>|
            is_unique_text(unique) && r@ == #[trigger] (kind@ + "-"@ + stamp + "-"@ + unique),
{
    let stamp = utc_stamp();
    let unique = unique_text();
    let r = backup_id(kind, stamp.as_str(), unique.as_str());
    assert(is_unique_text(unique@) && r@ == kind@ + "-"@ + stamp@ + "-"@ + unique@);
    r
}

pub open spec fn is_full(m: BackupModel) -> bool {
    m.kind == "full"@
}

/// Whether a backup comes from before log sequence numbers were written down: its end is read from
/// its log.
pub open spec fn is_legacy(m: BackupModel) -> bool {
    m.format_version == 0 && is_full(m)
}

pub fn needs_log(m: &BackupMetadata) -> (r: bool)
    ensures
        r == is_legacy(m@),
{
    m.format_version == 0 && text::text_equal(m.kind.as_str(), "full")
}

/// What was read under an id, settled: it must be a backup of that id and of a known kind. `lsn`
/// and `bytes` are what its log says.
pub open spec fn settled(id: Seq<char>, m: BackupModel, lsn: u64, bytes: u64) -> Result<
    BackupModel,
    Seq<char>,
> {
    if !safe_id(id) {
        Err("unsafe backup id"@)
    } else if m.id != id || !(is_full(m) || m.kind == "incremental"@) {
        Err("backup metadata identity or kind mismatch"@)
    } else if is_legacy(m) {
        Ok(BackupModel { to_lsn: lsn, wal_records: lsn, wal_bytes: bytes, ..m })
    } else {
        Ok(m)
    }
}

pub fn settle_metadata(id: &str, m: BackupMetadata, lsn: u64, bytes: u64) -> (r: DbResult<
    BackupMetadata,
>)
    ensures
        error::outcome(r) == settled(id@, m@, lsn, bytes),
{
    if !backup_id_is_safe(id) {
        return Err(DbError::of("unsafe backup id"));
    }
    let kind = m.kind.as_str();
    if !text::text_equal(m.id.as_str(), id) || !(text::text_equal(kind, "full")
        || text::text_equal(kind, "incremental")) {
        return Err(DbError::of("backup metadata identity or kind mismatch"));
    }
    let mut out = m;
    if needs_log(&out) {
        out.to_lsn = lsn;
        out.wal_records = lsn;
        out.wal_bytes = bytes;
    }
    Ok(out)
}

/// The metadata of a full backup that ends at a log sequence number.
pub fn full_metadata(id: &str, created_at: &str, to_lsn: u64) -> (r: BackupMetadata)
    ensures
        r@ == (BackupModel {
            format_version: BACKUP_FORMAT_VERSION,
            id: id@,
            kind: "full"@,
            created_at: created_at@,
            parent_id: None,
            from_lsn: 0,
            to_lsn: to_lsn,
            wal_records: to_lsn,
            wal_bytes: 0,
        }),
{
    BackupMetadata {
        format_version: BACKUP_FORMAT_VERSION,
        id: text::copy_text(id),
        kind: text::copy_text("full"),
        created_at: text::copy_text(created_at),
        parent_id: None,
        from_lsn: 0,
        to_lsn: to_lsn,
        wal_records: to_lsn,
        wal_bytes: 0,
    }
}

/// The metadata of an increment on a base, unless the log ends before the base does or the base
/// is of another format.
pub fn incremental_metadata(base: &BackupMetadata, id: &str, created_at: &str, to_lsn: u64) -> (r:
    Option<BackupMetadata>)
    ensures
        r.deep_view() == (if base.format_version != BACKUP_FORMAT_VERSION || to_lsn < base.to_lsn {
            None
        } else {
            Some(
                BackupModel {
                    format_version: BACKUP_FORMAT_VERSION,
                    id: id@,
                    kind: "incremental"@,
                    created_at: created_at@,
                    parent_id: Some(base.id@),
                    from_lsn: base.to_lsn,
                    to_lsn: to_lsn,
                    wal_records: (to_lsn - base.to_lsn) as u64,
                    wal_bytes: 0,
                },
            )
        }),
{
    if base.format_version != BACKUP_FORMAT_VERSION || to_lsn < base.to_lsn {
        return None;
    }
    Some(
        BackupMetadata {
            format_version: BACKUP_FORMAT_VERSION,
            id: text::copy_text(id),
            kind: text::copy_text("incremental"),
            created_at: text::copy_text(created_at),
            parent_id: Some(text::copy_text(base.id.as_str())),
            from_lsn: base.to_lsn,
            to_lsn: to_lsn,
            wal_records: to_lsn - base.to_lsn,
            wal_bytes: 0,
        },
    )
}

/// Whether a backup is no later than another: by where it ends, then by when it was made.
pub open spec fn no_later(a: BackupModel, b: BackupModel) -> bool {
    a.to_lsn < b.to_lsn || (a.to_lsn == b.to_lsn && !assoc::text_less(b.created_at, a.created_at))
}

/// The last backup of the current format, from the `at`-th on or the best before them.
pub open spec fn last_from(list: Seq<BackupModel>, at: int, best: Option<int>) -> Option<int>
    decreases list.len() - at,
{
    if at < 0 || at >= list.len() {
        best
    } else {
        last_from(
            list,
            at + 1,
            if list[at].format_version == BACKUP_FORMAT_VERSION && (best is None || no_later(
                list[best->0],
                list[at],
            )) {
                Some(at)
            } else {
                best
            },
        )
    }
}

/// The backup that an increment is made on when none is named.
pub fn latest_backup(list: &Vec<BackupMetadata>) -> (r: Option<usize>)
    ensures
        (match r {
            Some(i) => Some(i as int),
            None => None,
        }) == last_from(list.deep_view(), 0, None),
        r matches Some(i) ==> i < list@.len(),
{
    let ghost all = list.deep_view();
    let mut best: Option<usize> = None;
    let mut i: usize = 0;
    while i < list.len()
        invariant
            i <= list@.len(),
            all == list.deep_view(),
            best matches Some(b) ==> b < list@.len(),
            last_from(
                all,
                i as int,
                match best {
                    Some(b) => Some(b as int),
                    None => None,
                },
            ) == last_from(all, 0, None),
        decreases list@.len() - i,
    {
        assert(all[i as int] == list@[i as int]@);
        if list[i].format_version == BACKUP_FORMAT_VERSION {
            match best {
                None => {
                    best = Some(i);
                },
                Some(b) => {
                    assert(all[b as int] == list@[b as int]@);
                    if list[b].to_lsn < list[i].to_lsn || (list[b].to_lsn == list[i].to_lsn
                        && !assoc::is_text_less(
                        list[i].created_at.as_str(),
                        list[b].created_at.as_str(),
                    )) {
                        best = Some(i);
                    }
                },
            }
        }
        i += 1;
    }
    best
}

/// Whether another backup builds on one.
pub open spec fn is_parent(list: Seq<BackupModel>, id: Seq<char>) -> bool {
    exists|i: int| 0 <= i < list.len() && (#[trigger] list[i]).parent_id == Some(id)
}

fn has_child(list: &Vec<BackupMetadata>, id: &str) -> (r: bool)
    ensures
        r == is_parent(list.deep_view(), id@),
{
    let ghost all = list.deep_view();
    let mut i: usize = 0;
    while i < list.len()
        invariant
            i <= list@.len(),
            all == list.deep_view(),
            forall|j: int| 0 <= j < i ==> (#[trigger] all[j]).parent_id != Some(id@),
        decreases list@.len() - i,
    {
        assert(all[i as int] == list@[i as int]@);
        match &list[i].parent_id {
            None => {},
            Some(p) => {
                if text::text_equal(p.as_str(), id) {
                    return true;
                }
            },
        }
        i += 1;
    }
    false
}

/// The HTTP status that a request to delete a backup is refused with: the backup must be there, no
/// other may build on it, and no restore may wait for it.
pub fn refuse_delete(id: &str, exists: bool, list: &Vec<BackupMetadata>, pending: Option<&str>) -> (r:
    Option<u16>)
    ensures
        r == (if !safe_id(id@) {
            Some(400u16)
        } else if !exists {
            Some(404u16)
        } else if is_parent(list.deep_view(), id@) || (pending matches Some(p) && p@ == id@) {
            Some(409u16)
        } else {
            None
        }),
{
    if !backup_id_is_safe(id) {
        return Some(400);
    }
    if !exists {
        return Some(404);
    }
    let waiting = match pending {
        None => false,
        Some(p) => text::text_equal(p, id),
    };
    if has_child(list, id) || waiting {
        Some(409)
    } else {
        None
    }
}

// ---------------------------------------------------------------------------------------------
// Chains
// ---------------------------------------------------------------------------------------------
/// A walk from a backup to the full backup that it builds on: the ids asked for, and what was found
/// for them.
pub struct ChainWalk {
    pub asked: Vec<String>,
    pub found: Vec<BackupMetadata>,
}

#[verifier::ext_equal]
pub struct WalkModel {
    pub asked: Seq<Seq<char>>,
    pub found: Seq<BackupModel>,
}

impl View for ChainWalk {
    type V = WalkModel;

    open spec fn view(&self) -> WalkModel {
        WalkModel { asked: self.asked.deep_view(), found: self.found.deep_view() }
    }
}

pub open spec fn walk_start(id: Seq<char>) -> WalkModel {
    WalkModel { asked: seq![id], found: Seq::empty() }
}

/// The walk with one more backup found, and the id to ask for next. A full backup ends it.
pub open spec fn walked(w: WalkModel, m: BackupModel) -> Result<
    (WalkModel, Option<Seq<char>>),
    Seq<char>,
> {
    let found = w.found.push(m);
    if is_full(m) {
        Ok((WalkModel { found: found, ..w }, None))
    } else {
        match m.parent_id {
            None => Err("incremental backup has no parent"@),
            Some(p) => if w.asked.contains(p) {
                Err("backup chain cycle detected"@)
            } else {
                Ok((WalkModel { asked: w.asked.push(p), found: found }, Some(p)))
            },
        }
    }
}

impl ChainWalk {
    pub fn start(id: &str) -> (r: Self)
        ensures
            r@ == walk_start(id@),
    {
        let mut asked: Vec<String> = Vec::new();
        asked.push(text::copy_text(id));
        let r = ChainWalk { asked: asked, found: Vec::new() };
        assert(r.asked.deep_view() =~= seq![id@]);
        assert(r.found.deep_view() =~= Seq::empty());
        r
    }

    /// Takes what was found for the last id asked for. Returns the id to ask for next.
    pub fn advance(&mut self, m: BackupMetadata) -> (r: DbResult<Option<String>>)
        ensures
            match walked(old(self)@, m@) {
                Err(e) => r matches Err(x) && x.message@ == e && final(self)@ == old(self)@,
                Ok((next, id)) => r matches Ok(out) && out.deep_view() == id && final(self)@ == next,
            },
    {
        let ghost before = self.found.deep_view();
        let ghost asked = self.asked.deep_view();
        let ghost model = m@;
        if text::text_equal(m.kind.as_str(), "full") {
            self.found.push(m);
            assert(self.found.deep_view() =~= before.push(model));
            return Ok(None);
        }
        let parent = match &m.parent_id {
            None => {
                return Err(DbError::of("incremental backup has no parent"));
            },
            Some(p) => text::copy_text(p.as_str()),
        };
        if assoc::has_name(&self.asked, parent.as_str()) {
            return Err(DbError::of("backup chain cycle detected"));
        }
        self.found.push(m);
        assert(self.found.deep_view() =~= before.push(model));
        self.asked.push(text::copy_text(parent.as_str()));
        assert(self.asked.deep_view() =~= asked.push(parent@));
        Ok(Some(parent))
    }

    /// The chain, the full backup first.
    pub fn finish(self) -> (r: Vec<BackupMetadata>)
        ensures
            r.deep_view() == self@.found.reverse(),
    {
        let mut left = self.found;
        let ghost all = left.deep_view();
        let mut out: Vec<BackupMetadata> = Vec::new();
        assert(all.skip(all.len() as int).reverse() =~= Seq::empty());
        assert(out.deep_view() =~= all.skip(all.len() as int).reverse());
        while left.len() > 0
            invariant
                left@.len() <= all.len(),
                left.deep_view() == all.take(left@.len() as int),
                out.deep_view() == all.skip(left@.len() as int).reverse(),
            decreases left@.len(),
        {
            let ghost k = left@.len() as int;
            let ghost before = out.deep_view();
            match left.pop() {
                None => {},
                Some(m) => {
                    assert(all.take(k)[k - 1] == m@);
                    out.push(m);
                    assert(out.deep_view() =~= before.push(all[k - 1]));
                    assert(out.deep_view() =~= all.skip(k - 1).reverse());
                    assert(left.deep_view() =~= all.take(k - 1));
                },
            }
        }
        assert(all.skip(0) =~= all);
        out
    }
}

/// What the archive of an increment was found to hold, or why it cannot be read.
#[derive(Debug)]
pub struct ArchiveInfo {
    pub record_count: u64,
    pub bytes: u64,
}

/// Whether an increment follows its parent without a gap.
pub open spec fn follows(parent: BackupModel, m: BackupModel) -> bool {
    m.kind == "incremental"@ && m.format_version == BACKUP_FORMAT_VERSION && m.parent_id == Some(
        parent.id,
    ) && m.from_lsn == parent.to_lsn && m.wal_records == m.to_lsn - m.from_lsn
}

/// The fault of the first faulty link from the `at`-th backup on.
pub open spec fn links_fault(
    chain: Seq<BackupModel>,
    archives: Seq<Result<ArchiveInfo, String>>,
    at: int,
) -> Option<Seq<char>>
    decreases chain.len() - at,
{
    if at < 0 || at + 1 >= chain.len() {
        None
    } else if !follows(chain[at], chain[at + 1]) {
        Some("invalid or discontinuous incremental backup chain"@)
    } else {
        match archives[at] {
            Err(e) => Some(e@),
            Ok(info) => if info.record_count != chain[at + 1].wal_records || info.bytes != chain[at
                + 1].wal_bytes {
                Some("incremental WAL manifest mismatch"@)
            } else {
                links_fault(chain, archives, at + 1)
            },
        }
    }
}

/// Why a chain cannot be restored. `full_lsn` is where the log of the full backup ends, and
/// `archives` is what was found of the increments.
pub open spec fn chain_fault(
    chain: Seq<BackupModel>,
    data_present: bool,
    full_lsn: u64,
    archives: Seq<Result<ArchiveInfo, String>>,
) -> Option<Seq<char>> {
    if chain.len() == 0 {
        Some("empty backup chain"@)
    } else if !is_full(chain[0]) || chain[0].parent_id is Some {
        Some("backup chain does not start with a full backup"@)
    } else if !data_present {
        Some("full backup data is missing"@)
    } else if full_lsn != chain[0].to_lsn {
        Some(
            "full backup LSN mismatch: metadata "@ + num::decimal(chain[0].to_lsn as nat)
                + ", WAL "@ + num::decimal(full_lsn as nat),
        )
    } else {
        links_fault(chain, archives, 0)
    }
}

fn is_follower(parent: &BackupMetadata, m: &BackupMetadata) -> (r: bool)
    ensures
        r == follows(parent@, m@),
{
    let linked = match &m.parent_id {
        None => false,
        Some(p) => text::text_equal(p.as_str(), parent.id.as_str()),
    };
    text::text_equal(m.kind.as_str(), "incremental") && m.format_version == BACKUP_FORMAT_VERSION
        && linked && m.from_lsn == parent.to_lsn && m.to_lsn >= m.from_lsn && m.wal_records
        == m.to_lsn - m.from_lsn
}

/// Checks a chain, the full backup first.
pub fn check_chain(
    chain: &Vec<BackupMetadata>,
    data_present: bool,
    full_lsn: u64,
    archives: &Vec<Result<ArchiveInfo, String>>,
) -> (r: DbResult<()>)
    requires
        archives@.len() + 1 >= chain@.len(),
    ensures
        match chain_fault(chain.deep_view(), data_present, full_lsn, archives@) {
            Some(e) => r matches Err(x) && x.message@ == e,
            None => r is Ok,
        },
{
    let ghost all = chain.deep_view();
    assert(all.len() == chain@.len());
    if chain.len() == 0 {
        return Err(DbError::of("empty backup chain"));
    }
    assert(all[0] == chain@[0]@);
    if !text::text_equal(chain[0].kind.as_str(), "full") || chain[0].parent_id.is_some() {
        return Err(DbError::of("backup chain does not start with a full backup"));
    }
    if !data_present {
        return Err(DbError::of("full backup data is missing"));
    }
    if full_lsn != chain[0].to_lsn {
        let a = num::u64_text(chain[0].to_lsn);
        let b = num::u64_text(full_lsn);
        return Err(
            DbError::new(
                error::cat4(
                    "full backup LSN mismatch: metadata ",
                    a.as_str(),
                    ", WAL ",
                    b.as_str(),
                ),
            ),
        );
    }
    let n: usize = chain.len();
    let mut i: usize = 0;
    while i < n - 1
        invariant
            n == chain@.len(),
            0 < n,
            i <= n - 1,
            all == chain.deep_view(),
            archives@.len() + 1 >= n,
            chain_fault(all, data_present, full_lsn, archives@) == links_fault(
                all,
                archives@,
                i as int,
            ),
        decreases n - i,
    {
        assert(all[i as int] == chain@[i as int]@);
        assert(all[i + 1] == chain@[i + 1]@);
        if !is_follower(&chain[i], &chain[i + 1]) {
            return Err(DbError::of("invalid or discontinuous incremental backup chain"));
        }
        match &archives[i] {
            Err(e) => {
                return Err(DbError::of(e.as_str()));
            },
            Ok(info) => {
                if info.record_count != chain[i + 1].wal_records || info.bytes != chain[i
                    + 1].wal_bytes {
                    return Err(DbError::of("incremental WAL manifest mismatch"));
                }
            },
        }
        i += 1;
    }
    Ok(())
}

// ---------------------------------------------------------------------------------------------
// Points in time
// ---------------------------------------------------------------------------------------------
/// A logged group of an increment: its place in the log, and when it was committed.
#[derive(Debug, Clone, Copy, PartialEq, Eq, Structural)]
pub struct GroupTime {
    pub lsn: u64,
    pub committed: Option<u64>,
}

pub open spec fn times_needed() -> Seq<char> {
    "point-in-time restore requires timestamped MDG2 records after the full snapshot"@
}

/// The last group from the `at`-th on that was committed by a time, and whether a later one stands
/// behind it.
pub open spec fn groups_by(groups: Seq<GroupTime>, target: u64, lsn: u64, at: int) -> Result<
    (u64, bool),
    Seq<char>,
>
    decreases groups.len() - at,
{
    if at < 0 || at >= groups.len() {
        Ok((lsn, false))
    } else {
        match groups[at].committed {
            None => Err(times_needed()),
            Some(t) => if t > target {
                Ok((lsn, true))
            } else {
                groups_by(groups, target, groups[at].lsn, at + 1)
            },
        }
    }
}

/// Where a restore to a time ends, for the backups of a chain from the `at`-th on. `created` says
/// when each backup was made, and `archives` holds the groups of the increments.
pub open spec fn target_from(
    chain: Seq<BackupModel>,
    created: Seq<Result<i64, Seq<char>>>,
    archives: Seq<Result<Seq<GroupTime>, Seq<char>>>,
    target: u64,
    lsn: u64,
    at: int,
) -> Result<u64, Seq<char>>
    decreases chain.len() - at,
{
    if at < 1 || at >= chain.len() {
        Ok(lsn)
    } else {
        match created[at] {
            Err(e) => Err(e),
            Ok(t) => if 0 <= t && t <= target {
                target_from(chain, created, archives, target, chain[at].to_lsn, at + 1)
            } else {
                match archives[at - 1] {
                    Err(e) => Err(e),
                    Ok(groups) => match groups_by(groups, target, lsn, 0) {
                        Err(e) => Err(e),
                        Ok((last, stopped)) => if stopped {
                            Ok(last)
                        } else {
                            target_from(chain, created, archives, target, last, at + 1)
                        },
                    },
                }
            },
        }
    }
}

/// Where a restore ends: with the chain, or at a point in time.
pub open spec fn restore_target(
    chain: Seq<BackupModel>,
    point: Option<Result<i64, Seq<char>>>,
    created: Seq<Result<i64, Seq<char>>>,
    archives: Seq<Result<Seq<GroupTime>, Seq<char>>>,
) -> Result<u64, Seq<char>> {
    if chain.len() == 0 {
        Err("empty backup chain"@)
    } else {
        match point {
            None => Ok(chain.last().to_lsn),
            Some(Err(e)) => Err(e),
            Some(Ok(t)) => if t < 0 {
                Err("point-in-time timestamp precedes Unix epoch"@)
            } else {
                match created[0] {
                    Err(e) => Err(e),
                    Ok(made) => if made < 0 || t < made {
                        Err("point-in-time target predates the parent full snapshot"@)
                    } else {
                        target_from(chain, created, archives, t as u64, chain[0].to_lsn, 1)
                    },
                }
            },
        }
    }
}

pub open spec fn times_model(list: Seq<Result<i64, String>>) -> Seq<Result<i64, Seq<char>>> {
    list.map_values(|r: Result<i64, String>| millis_model(r))
}

pub open spec fn archive_model(r: Result<Vec<GroupTime>, String>) -> Result<
    Seq<GroupTime>,
    Seq<char>,
> {
    match r {
        Ok(list) => Ok(list@),
        Err(e) => Err(e@),
    }
}

pub open spec fn archives_model(list: Seq<Result<Vec<GroupTime>, String>>) -> Seq<
    Result<Seq<GroupTime>, Seq<char>>,
> {
    list.map_values(|r: Result<Vec<GroupTime>, String>| archive_model(r))
}

fn scan_groups(groups: &Vec<GroupTime>, target: u64, lsn: u64) -> (r: DbResult<(u64, bool)>)
    ensures
        match r {
            Ok(out) => groups_by(groups@, target, lsn, 0) == Ok::<(u64, bool), Seq<char>>(out),
            Err(e) => groups_by(groups@, target, lsn, 0) == Err::<(u64, bool), Seq<char>>(
                e.message@,
            ),
        },
{
    let mut last: u64 = lsn;
    let mut i: usize = 0;
    while i < groups.len()
        invariant
            i <= groups@.len(),
            groups_by(groups@, target, last, i as int) == groups_by(groups@, target, lsn, 0),
        decreases groups@.len() - i,
    {
        match groups[i].committed {
            None => {
                return Err(
                    DbError::of(
                        "point-in-time restore requires timestamped MDG2 records after the full snapshot",
                    ),
                );
            },
            Some(t) => {
                if t > target {
                    return Ok((last, true));
                }
            },
        }
        last = groups[i].lsn;
        i += 1;
    }
    Ok((last, false))
}

/// Where a restore ends, given the times that were read.
pub fn restore_target_lsn(
    chain: &Vec<BackupMetadata>,
    point: &Option<Result<i64, String>>,
    created: &Vec<Result<i64, String>>,
    archives: &Vec<Result<Vec<GroupTime>, String>>,
) -> (r: DbResult<u64>)
    requires
        created@.len() == chain@.len(),
        archives@.len() + 1 >= chain@.len(),
    ensures
        error::outcome(r) == restore_target(
            chain.deep_view(),
            match *point {
                Some(p) => Some(millis_model(p)),
                None => None,
            },
            times_model(created@),
            archives_model(archives@),
        ),
{
    let ghost all = chain.deep_view();
    let ghost times = times_model(created@);
    let ghost logs = archives_model(archives@);
    assert(all.len() == chain@.len());
    let n: usize = chain.len();
    if n == 0 {
        return Err(DbError::of("empty backup chain"));
    }
    assert(all[n - 1] == chain@[n - 1]@);
    assert(all[0] == chain@[0]@);
    let t: i64 = match point {
        None => {
            return Ok(chain[n - 1].to_lsn);
        },
        Some(Err(e)) => {
            return Err(DbError::of(e.as_str()));
        },
        Some(Ok(t)) => *t,
    };
    if t < 0 {
        return Err(DbError::of("point-in-time timestamp precedes Unix epoch"));
    }
    assert(times[0] == millis_model(created@[0]));
    match &created[0] {
        Err(e) => {
            return Err(DbError::of(e.as_str()));
        },
        Ok(made) => {
            if *made < 0 || t < *made {
                return Err(DbError::of("point-in-time target predates the parent full snapshot"));
            }
        },
    }
    let target: u64 = t as u64;
    let ghost whole = target_from(all, times, logs, target, all[0].to_lsn, 1);
    let mut lsn: u64 = chain[0].to_lsn;
    let mut i: usize = 1;
    while i < n
        invariant
            1 <= i <= n,
            n == chain@.len(),
            created@.len() == n,
            archives@.len() + 1 >= n,
            all == chain.deep_view(),
            times == times_model(created@),
            logs == archives_model(archives@),
            restore_target(
                all,
                match *point {
                    Some(p) => Some(millis_model(p)),
                    None => None,
                },
                times,
                logs,
            ) == whole,
            target_from(all, times, logs, target, lsn, i as int) == whole,
        decreases n - i,
    {
        assert(all[i as int] == chain@[i as int]@);
        assert(times[i as int] == millis_model(created@[i as int]));
        assert(logs[i - 1] == archive_model(archives@[i - 1]));
        let made: i64 = match &created[i] {
            Err(e) => {
                return Err(DbError::of(e.as_str()));
            },
            Ok(made) => *made,
        };
        if made >= 0 && made as u64 <= target {
            lsn = chain[i].to_lsn;
        } else {
            match &archives[i - 1] {
                Err(e) => {
                    return Err(DbError::of(e.as_str()));
                },
                Ok(groups) => match scan_groups(groups, target, lsn) {
                    Err(e) => {
                        return Err(e);
                    },
                    Ok(out) => {
                        if out.1 {
                            return Ok(out.0);
                        }
                        lsn = out.0;
                    },
                },
            }
        }
        i += 1;
    }
    Ok(lsn)
}

/// When the backups of a chain were made.
pub open spec fn created_times(chain: Seq<BackupModel>) -> Seq<Result<i64, Seq<char>>> {
    chain.map_values(|m: BackupModel| rfc3339_millis(m.created_at))
}

/// Where a restore ends, with times in RFC 3339.
pub fn resolve_restore_target_lsn(
    chain: &Vec<BackupMetadata>,
    point_in_time: Option<&str>,
    archives: &Vec<Result<Vec<GroupTime>, String>>,
) -> (r: DbResult<u64>)
    requires
        archives@.len() + 1 >= chain@.len(),
    ensures
        error::outcome(r) == restore_target(
            chain.deep_view(),
            match point_in_time {
                Some(p) => Some(rfc3339_millis(p@)),
                None => None,
            },
            created_times(chain.deep_view()),
            archives_model(archives@),
        ),
{
    let point: Option<Result<i64, String>> = match point_in_time {
        Some(p) => Some(parse_rfc3339(p)),
        None => None,
    };
    let ghost target = created_times(chain.deep_view());
    let mut created: Vec<Result<i64, String>> = Vec::new();
    let mut i: usize = 0;
    assert(times_model(created@) =~= target.take(0));
    while i < chain.len()
        invariant
            i <= chain@.len(),
            created@.len() == i,
            target == created_times(chain.deep_view()),
            times_model(created@) == target.take(i as int),
        decreases chain@.len() - i,
    {
        let ghost before = times_model(created@);
        assert(chain.deep_view()[i as int] == chain@[i as int]@);
        let made = parse_rfc3339(chain[i].created_at.as_str());
        let ghost model = millis_model(made);
        created.push(made);
        assert(times_model(created@) =~= before.push(model));
        assert(target.take(i + 1) =~= target.take(i as int).push(target[i as int]));
        i += 1;
    }
    assert(target.take(i as int) =~= target);
    restore_target_lsn(chain, &point, &created, archives)
}

// ---------------------------------------------------------------------------------------------
// Restoring
// ---------------------------------------------------------------------------------------------
/// The increment of a chain to install, whole or up to a log sequence number.
#[derive(Debug, Clone, Copy, PartialEq, Eq, Structural)]
pub struct RestoreStep {
    pub index: usize,
    pub upto: Option<u64>,
}

/// The steps for the increments of a chain from the `at`-th backup on, and where they end.
pub open spec fn steps_from(
    chain: Seq<BackupModel>,
    target: u64,
    installed: u64,
    at: int,
    done: Seq<RestoreStep>,
) -> Result<(Seq<RestoreStep>, u64), Seq<char>>
    decreases chain.len() - at,
{
    if at < 1 || at >= chain.len() {
        Ok((done, installed))
    } else {
        let m = chain[at];
        if installed != m.from_lsn {
            Err("restore chain LSN discontinuity"@)
        } else if target <= m.from_lsn {
            Ok((done, installed))
        } else if m.to_lsn == m.from_lsn {
            steps_from(chain, target, installed, at + 1, done)
        } else if target < m.to_lsn {
            Ok((done.push(RestoreStep { index: at as usize, upto: Some(target) }), target))
        } else {
            steps_from(
                chain,
                target,
                m.to_lsn,
                at + 1,
                done.push(RestoreStep { index: at as usize, upto: None }),
            )
        }
    }
}

/// The steps that bring an installed full backup to a log sequence number, or to the chain's end.
pub open spec fn restore_steps(chain: Seq<BackupModel>, installed: u64, target: Option<u64>) -> Result<
    Seq<RestoreStep>,
    Seq<char>,
> {
    if chain.len() == 0 {
        Err("empty restore chain"@)
    } else if installed != chain[0].to_lsn {
        Err("restored full backup ends at unexpected LSN"@)
    } else {
        let end = chain.last().to_lsn;
        let goal = match target {
            Some(t) => t,
            None => end,
        };
        if goal < chain[0].to_lsn || goal > end {
            Err("pending restore target LSN is outside the backup chain"@)
        } else {
            match steps_from(chain, goal, installed, 1, Seq::empty()) {
                Err(e) => Err(e),
                Ok((steps, reached)) => if reached != goal {
                    Err("restore did not reach the requested LSN"@)
                } else {
                    Ok(steps)
                },
            }
        }
    }
}

pub fn plan_restore(chain: &Vec<BackupMetadata>, installed_lsn: u64, target: Option<u64>) -> (r:
    DbResult<Vec<RestoreStep>>)
    ensures
        match r {
            Ok(steps) => restore_steps(chain.deep_view(), installed_lsn, target) == Ok::<
                Seq<RestoreStep>,
                Seq<char>,
            >(steps@),
            Err(e) => restore_steps(chain.deep_view(), installed_lsn, target) == Err::<
                Seq<RestoreStep>,
                Seq<char>,
            >(e.message@),
        },
{
    let ghost all = chain.deep_view();
    assert(all.len() == chain@.len());
    let n: usize = chain.len();
    if n == 0 {
        return Err(DbError::of("empty restore chain"));
    }
    assert(all[0] == chain@[0]@);
    assert(all[n - 1] == chain@[n - 1]@);
    if installed_lsn != chain[0].to_lsn {
        return Err(DbError::of("restored full backup ends at unexpected LSN"));
    }
    let end: u64 = chain[n - 1].to_lsn;
    let goal: u64 = match target {
        Some(t) => t,
        None => end,
    };
    if goal < chain[0].to_lsn || goal > end {
        return Err(DbError::of("pending restore target LSN is outside the backup chain"));
    }
    let ghost whole = steps_from(all, goal, installed_lsn, 1, Seq::empty());
    let mut out: Vec<RestoreStep> = Vec::new();
    let mut installed: u64 = installed_lsn;
    let mut i: usize = 1;
    let mut stop = false;
    while i < n && !stop
        invariant
            1 <= i <= n,
            n == chain@.len(),
            all == chain.deep_view(),
            whole == steps_from(all, goal, installed_lsn, 1, Seq::empty()),
            restore_steps(all, installed_lsn, target) == (match whole {
                Err(e) => Err::<Seq<RestoreStep>, Seq<char>>(e),
                Ok((steps, reached)) => if reached != goal {
                    Err("restore did not reach the requested LSN"@)
                } else {
                    Ok(steps)
                },
            }),
            !stop ==> steps_from(all, goal, installed, i as int, out@) == whole,
            stop ==> whole == Ok::<(Seq<RestoreStep>, u64), Seq<char>>((out@, installed)),
        decreases
            n - i,
            if stop {
                0int
            } else {
                1int
            },
    {
        assert(all[i as int] == chain@[i as int]@);
        if installed != chain[i].from_lsn {
            return Err(DbError::of("restore chain LSN discontinuity"));
        }
        if goal <= chain[i].from_lsn {
            stop = true;
        } else if chain[i].to_lsn == chain[i].from_lsn {
            i += 1;
        } else if goal < chain[i].to_lsn {
            out.push(RestoreStep { index: i, upto: Some(goal) });
            installed = goal;
            stop = true;
        } else {
            out.push(RestoreStep { index: i, upto: None });
            installed = chain[i].to_lsn;
            i += 1;
        }
    }
    if installed != goal {
        return Err(DbError::of("restore did not reach the requested LSN"));
    }
    Ok(out)
}

/// Whether a path is a directory or lies in it; both are absolute and without dots.
pub open spec fn lies_in(path: Seq<char>, dir: Seq<char>) -> bool {
    path == dir || search::starts_with(
        path,
        if search::ends_with(dir, "/"@) {
            dir
        } else {
            dir + "/"@
        },
    )
}

pub fn is_in(path: &str, dir: &str) -> (r: bool)
    ensures
        r == lies_in(path@, dir@),
{
    if text::text_equal(path, dir) {
        return true;
    }
    if search::text_ends_with(dir, "/") {
        search::text_starts_with(path, dir)
    } else {
        let inner = error::cat2(dir, "/");
        search::text_starts_with(path, inner.as_str())
    }
}

/// Whether an entry of the data directory is removed before a backup is installed: all are but
/// the marker of the restore and what holds the backups. Nothing outside the directory is touched.
pub open spec fn cleared(
    marker: bool,
    path: Seq<char>,
    data_dir: Seq<char>,
    backups: Option<Seq<char>>,
) -> Result<bool, Seq<char>> {
    if marker {
        Ok(false)
    } else if !lies_in(path, data_dir) {
        Err("restore cleanup path escaped the data directory"@)
    } else {
        Ok(
            match backups {
                Some(b) => !lies_in(b, path),
                None => true,
            },
        )
    }
}

pub fn clear_entry(marker: bool, path: &str, data_dir: &str, backups: Option<&str>) -> (r: DbResult<bool>)
    ensures
        error::outcome(r) == cleared(
            marker,
            path@,
            data_dir@,
            match backups {
                Some(b) => Some(b@),
                None => None,
            },
        ),
{
    if marker {
        return Ok(false);
    }
    if !is_in(path, data_dir) {
        return Err(DbError::of("restore cleanup path escaped the data directory"));
    }
    match backups {
        Some(b) => Ok(!is_in(b, path)),
        None => Ok(true),
    }
}

// ---------------------------------------------------------------------------------------------
// Laws
// ---------------------------------------------------------------------------------------------
/// A chain without fault has no gap: every increment begins where the backup before it ends.
pub proof fn sound_chain_has_no_gap(
    chain: Seq<BackupModel>,
    data_present: bool,
    full_lsn: u64,
    archives: Seq<Result<ArchiveInfo, String>>,
    i: int,
)
    requires
        chain_fault(chain, data_present, full_lsn, archives) is None,
        0 <= i,
        i + 1 < chain.len(),
    ensures
        is_full(chain[0]),
        chain[i + 1].from_lsn == chain[i].to_lsn,
        chain[i + 1].to_lsn >= chain[i].to_lsn,
        chain[i + 1].parent_id == Some(chain[i].id),
{
    links_sound(chain, archives, 0, i);
}

proof fn links_sound(
    chain: Seq<BackupModel>,
    archives: Seq<Result<ArchiveInfo, String>>,
    at: int,
    i: int,
)
    requires
        0 <= at <= i,
        i + 1 < chain.len(),
        links_fault(chain, archives, at) is None,
    ensures
        follows(chain[i], chain[i + 1]),
    decreases i - at,
{
    if at < i {
        links_sound(chain, archives, at + 1, i);
    }
}

/// A walk never asks for a backup twice, so that it ends.
pub proof fn walk_asks_once(w: WalkModel, m: BackupModel)
    requires
        w.asked.no_duplicates(),
        walked(w, m) is Ok,
    ensures
        (walked(w, m)->Ok_0).0.asked.no_duplicates(),
{
}

/// A restore without a point in time ends with the chain.
pub proof fn whole_chain_is_restored(
    chain: Seq<BackupModel>,
    created: Seq<Result<i64, Seq<char>>>,
    archives: Seq<Result<Seq<GroupTime>, Seq<char>>>,
)
    requires
        chain.len() > 0,
    ensures
        restore_target(chain, None, created, archives) == Ok::<u64, Seq<char>>(
            chain.last().to_lsn,
        ),
{
}

/// A restore to a time takes the groups of an increment up to the first that was committed later,
/// and no further.
pub proof fn groups_stop_at_the_time(groups: Seq<GroupTime>, target: u64, lsn: u64, at: int)
    requires
        0 <= at <= groups.len(),
        groups_by(groups, target, lsn, at) is Ok,
    ensures
        ({
            let (last, stopped) = groups_by(groups, target, lsn, at)->Ok_0;
            exists|k: int|
                at <= k <= groups.len() && #[trigger] groups_taken(groups, target, at, k) && (last
                    == if k > at {
                    groups[k - 1].lsn
                } else {
                    lsn
                }) && (stopped ==> k < groups.len() && groups[k].committed is Some
                    && groups[k].committed->0 > target) && (!stopped ==> k == groups.len())
        }),
    decreases groups.len() - at,
{
    if at < groups.len() && groups[at].committed is Some && groups[at].committed->0 <= target {
        groups_stop_at_the_time(groups, target, groups[at].lsn, at + 1);
        let (last, stopped) = groups_by(groups, target, lsn, at)->Ok_0;
        let k = choose|k: int|
            at + 1 <= k <= groups.len() && #[trigger] groups_taken(groups, target, at + 1, k) && (
            last == if k > at + 1 {
                groups[k - 1].lsn
            } else {
                groups[at].lsn
            }) && (stopped ==> k < groups.len() && groups[k].committed is Some
                && groups[k].committed->0 > target) && (!stopped ==> k == groups.len());
        assert(groups_taken(groups, target, at, k));
    } else {
        assert(groups_taken(groups, target, at, at));
    }
}

/// Whether the groups `from..to` were committed by a time.
pub open spec fn groups_taken(groups: Seq<GroupTime>, target: u64, from: int, to: int) -> bool {
    forall|i: int|
        from <= i < to ==> (#[trigger] groups[i]).committed is Some && groups[i].committed->0
            <= target
}

} // verus!
