//! What the data directory holds: bytes per database, and storage that no table owns.
use crate::assoc;
use crate::text;
use vstd::prelude::*;

verus! {

/// A folder of pages that no table owns.
#[derive(Debug)]
pub struct OrphanStorage {
    pub database: String,
    pub table: String,
    pub bytes: u64,
}

#[verifier::ext_equal]
pub struct OrphanModel {
    pub database: Seq<char>,
    pub table: Seq<char>,
    pub bytes: u64,
}

impl View for OrphanStorage {
    type V = OrphanModel;

    open spec fn view(&self) -> OrphanModel {
        OrphanModel { database: self.database@, table: self.table@, bytes: self.bytes }
    }
}

impl DeepView for OrphanStorage {
    type V = OrphanModel;

    open spec fn deep_view(&self) -> OrphanModel {
        self@
    }
}

impl Clone for OrphanStorage {
    fn clone(&self) -> (r: Self)
        ensures
            r@ == self@,
    {
        OrphanStorage {
            database: text::copy_text(self.database.as_str()),
            table: text::copy_text(self.table.as_str()),
            bytes: self.bytes,
        }
    }
}

#[derive(Debug)]
pub struct DatabaseStorageInventory {
    pub database: String,
    pub bytes: u64,
    pub active_tables: Vec<String>,
}

#[verifier::ext_equal]
pub struct DatabaseInventoryModel {
    pub database: Seq<char>,
    pub bytes: u64,
    pub active_tables: Seq<Seq<char>>,
}

impl View for DatabaseStorageInventory {
    type V = DatabaseInventoryModel;

    open spec fn view(&self) -> DatabaseInventoryModel {
        DatabaseInventoryModel {
            database: self.database@,
            bytes: self.bytes,
            active_tables: self.active_tables.deep_view(),
        }
    }
}

impl DeepView for DatabaseStorageInventory {
    type V = DatabaseInventoryModel;

    open spec fn deep_view(&self) -> DatabaseInventoryModel {
        self@
    }
}

#[derive(Debug)]
pub struct StorageInventory {
    pub data_dir: String,
    pub total_bytes: u64,
    pub wal_bytes: u64,
    pub active_bytes: u64,
    pub orphan_bytes: u64,
    pub databases: Vec<DatabaseStorageInventory>,
    pub orphan_storage: Vec<OrphanStorage>,
}

/// What was measured of one database.
#[derive(Debug)]
pub struct DatabaseUsage {
    pub database: String,
    pub bytes: u64,
    pub tables: Vec<String>,
    pub orphans: Vec<OrphanStorage>,
}

#[verifier::ext_equal]
pub struct UsageModel {
    pub database: Seq<char>,
    pub bytes: u64,
    pub tables: Seq<Seq<char>>,
    pub orphans: Seq<OrphanModel>,
}

impl View for DatabaseUsage {
    type V = UsageModel;

    open spec fn view(&self) -> UsageModel {
        UsageModel {
            database: self.database@,
            bytes: self.bytes,
            tables: self.tables.deep_view(),
            orphans: self.orphans.deep_view(),
        }
    }
}

impl DeepView for DatabaseUsage {
    type V = UsageModel;

    open spec fn deep_view(&self) -> UsageModel {
        self@
    }
}

/// A sum of byte counts, as far as it can be counted.
pub open spec fn capped(n: int) -> u64 {
    if n <= u64::MAX {
        n as u64
    } else {
        u64::MAX
    }
}

pub open spec fn orphan_sum(list: Seq<OrphanModel>, n: int) -> nat
    decreases n,
{
    if n <= 0 || n > list.len() {
        0
    } else {
        orphan_sum(list, n - 1) + list[n - 1].bytes as nat
    }
}

fn sum_orphans(list: &Vec<OrphanStorage>) -> (r: u64)
    ensures
        r == capped(orphan_sum(list.deep_view(), list@.len() as int) as int),
{
    let ghost all = list.deep_view();
    let mut total: u64 = 0;
    let mut i: usize = 0;
    while i < list.len()
        invariant
            i <= list@.len(),
            all == list.deep_view(),
            total == capped(orphan_sum(all, i as int) as int),
        decreases list@.len() - i,
    {
        assert(all[i as int] == list@[i as int]@);
        total = total.saturating_add(list[i].bytes);
        i += 1;
    }
    total
}

// ---------------------------------------------------------------------------------------------
// Order
// ---------------------------------------------------------------------------------------------
/// Where an item belongs: behind all that are not greater.
pub open spec fn orphan_greater(a: OrphanModel, b: OrphanModel) -> bool {
    assoc::text_less(b.database, a.database) || (a.database == b.database && assoc::text_less(
        b.table,
        a.table,
    ))
}

pub open spec fn orphan_place(list: Seq<OrphanModel>, x: OrphanModel, at: int) -> int
    decreases list.len() - at,
{
    if at < 0 || at >= list.len() || orphan_greater(list[at], x) {
        at
    } else {
        orphan_place(list, x, at + 1)
    }
}

/// The first `n` items in the order of their names.
pub open spec fn orphans_in_order(list: Seq<OrphanModel>, n: int) -> Seq<OrphanModel>
    decreases n,
{
    if n <= 0 || n > list.len() {
        Seq::empty()
    } else {
        let before = orphans_in_order(list, n - 1);
        before.insert(orphan_place(before, list[n - 1], 0), list[n - 1])
    }
}

fn is_orphan_greater(a: &OrphanStorage, b: &OrphanStorage) -> (r: bool)
    ensures
        r == orphan_greater(a@, b@),
{
    assoc::is_text_less(b.database.as_str(), a.database.as_str()) || (text::text_equal(
        a.database.as_str(),
        b.database.as_str(),
    ) && assoc::is_text_less(b.table.as_str(), a.table.as_str()))
}

proof fn orphan_place_bounds(list: Seq<OrphanModel>, x: OrphanModel, at: int)
    requires
        0 <= at <= list.len(),
    ensures
        at <= orphan_place(list, x, at) <= list.len(),
    decreases list.len() - at,
{
    if at < list.len() && !orphan_greater(list[at], x) {
        orphan_place_bounds(list, x, at + 1);
    }
}

pub fn sort_orphans(list: &Vec<OrphanStorage>) -> (r: Vec<OrphanStorage>)
    ensures
        r.deep_view() == orphans_in_order(list.deep_view(), list@.len() as int),
{
    let ghost all = list.deep_view();
    let mut out: Vec<OrphanStorage> = Vec::new();
    let mut i: usize = 0;
    assert(out.deep_view() =~= Seq::empty());
    while i < list.len()
        invariant
            i <= list@.len(),
            all == list.deep_view(),
            out.deep_view() == orphans_in_order(all, i as int),
        decreases list@.len() - i,
    {
        assert(all[i as int] == list@[i as int]@);
        let ghost before = out.deep_view();
        let ghost x = all[i as int];
        let mut p: usize = 0;
        while p < out.len() && !is_orphan_greater(&out[p], &list[i])
            invariant
                p <= out@.len(),
                i < list@.len(),
                before == out.deep_view(),
                x == list@[i as int]@,
                orphan_place(before, x, p as int) == orphan_place(before, x, 0),
            decreases out@.len() - p,
        {
            assert(before[p as int] == out@[p as int]@);
            p += 1;
        }
        proof {
            orphan_place_bounds(before, x, 0);
            if p < out@.len() {
                assert(before[p as int] == out@[p as int]@);
            }
        }
        let copy = list[i].clone();
        out.insert(p, copy);
        assert(out.deep_view() =~= before.insert(p as int, x));
        i += 1;
    }
    out
}

pub open spec fn database_place(
    list: Seq<DatabaseInventoryModel>,
    x: DatabaseInventoryModel,
    at: int,
) -> int
    decreases list.len() - at,
{
    if at < 0 || at >= list.len() || assoc::text_less(x.database, list[at].database) {
        at
    } else {
        database_place(list, x, at + 1)
    }
}

proof fn database_place_bounds(
    list: Seq<DatabaseInventoryModel>,
    x: DatabaseInventoryModel,
    at: int,
)
    requires
        0 <= at <= list.len(),
    ensures
        at <= database_place(list, x, at) <= list.len(),
    decreases list.len() - at,
{
    if at < list.len() && !assoc::text_less(x.database, list[at].database) {
        database_place_bounds(list, x, at + 1);
    }
}

pub open spec fn usage_item(u: UsageModel) -> DatabaseInventoryModel {
    DatabaseInventoryModel {
        database: u.database,
        bytes: u.bytes,
        active_tables: assoc::listed(u.tables.to_set()),
    }
}

/// The first `n` databases in the order of their names.
pub open spec fn databases_in_order(list: Seq<UsageModel>, n: int) -> Seq<DatabaseInventoryModel>
    decreases n,
{
    if n <= 0 || n > list.len() {
        Seq::empty()
    } else {
        let before = databases_in_order(list, n - 1);
        let x = usage_item(list[n - 1]);
        before.insert(database_place(before, x, 0), x)
    }
}

/// The orphans of the first `n` databases.
pub open spec fn all_orphans(list: Seq<UsageModel>, n: int) -> Seq<OrphanModel>
    decreases n,
{
    if n <= 0 || n > list.len() {
        Seq::empty()
    } else {
        all_orphans(list, n - 1) + list[n - 1].orphans
    }
}

/// The bytes that tables of the first `n` databases own.
pub open spec fn owned_bytes(list: Seq<UsageModel>, n: int) -> nat
    decreases n,
{
    if n <= 0 || n > list.len() {
        0
    } else {
        let u = list[n - 1];
        let lost = orphan_sum(u.orphans, u.orphans.len() as int);
        owned_bytes(list, n - 1) + (if u.bytes >= lost {
            (u.bytes - lost) as nat
        } else {
            0nat
        })
    }
}

fn add_database(out: &mut Vec<DatabaseStorageInventory>, u: &DatabaseUsage)
    ensures
        final(out).deep_view() == old(out).deep_view().insert(
            database_place(old(out).deep_view(), usage_item(u@), 0),
            usage_item(u@),
        ),
{
    let ghost before = out.deep_view();
    let item = DatabaseStorageInventory {
        database: text::copy_text(u.database.as_str()),
        bytes: u.bytes,
        active_tables: assoc::listed_names(&u.tables),
    };
    let ghost x = item@;
    let mut p: usize = 0;
    while p < out.len() && !assoc::is_text_less(item.database.as_str(), out[p].database.as_str())
        invariant
            p <= out@.len(),
            before == out.deep_view(),
            x == item@,
            database_place(before, x, p as int) == database_place(before, x, 0),
        decreases out@.len() - p,
    {
        assert(before[p as int] == out@[p as int]@);
        p += 1;
    }
    proof {
        database_place_bounds(before, x, 0);
        if p < out@.len() {
            assert(before[p as int] == out@[p as int]@);
        }
    }
    out.insert(p, item);
    assert(out.deep_view() =~= before.insert(p as int, x));
}

/// The inventory from what was measured.
pub fn storage_inventory(
    data_dir: &str,
    total_bytes: u64,
    wal_bytes: u64,
    usages: &Vec<DatabaseUsage>,
) -> (r: StorageInventory)
    ensures
        ({
            let all = usages.deep_view();
            let n = all.len() as int;
            let orphans = all_orphans(all, n);
            &&& r.data_dir@ == data_dir@
            &&& r.total_bytes == total_bytes
            &&& r.wal_bytes == wal_bytes
            &&& r.active_bytes == capped(wal_bytes + owned_bytes(all, n))
            &&& r.orphan_storage.deep_view() == orphans_in_order(orphans, orphans.len() as int)
            &&& r.orphan_bytes == capped(
                orphan_sum(
                    orphans_in_order(orphans, orphans.len() as int),
                    orphans_in_order(orphans, orphans.len() as int).len() as int,
                ) as int,
            )
            &&& r.databases.deep_view() == databases_in_order(all, n)
        }),
{
    let ghost all = usages.deep_view();
    let mut databases: Vec<DatabaseStorageInventory> = Vec::new();
    let mut orphans: Vec<OrphanStorage> = Vec::new();
    let mut active: u64 = wal_bytes;
    let mut i: usize = 0;
    assert(databases.deep_view() =~= Seq::empty());
    assert(orphans.deep_view() =~= Seq::empty());
    while i < usages.len()
        invariant
            i <= usages@.len(),
            all == usages.deep_view(),
            databases.deep_view() == databases_in_order(all, i as int),
            orphans.deep_view() == all_orphans(all, i as int),
            active == capped(wal_bytes + owned_bytes(all, i as int)),
        decreases usages@.len() - i,
    {
        assert(all[i as int] == usages@[i as int]@);
        add_database(&mut databases, &usages[i]);
        let lost = sum_orphans(&usages[i].orphans);
        assert(all[i as int].orphans.len() == usages@[i as int].orphans@.len());
        active = active.saturating_add(usages[i].bytes.saturating_sub(lost));
        let ghost before = orphans.deep_view();
        let mut k: usize = 0;
        let ghost more = usages@[i as int].orphans.deep_view();
        assert(orphans.deep_view() =~= before + more.take(0));
        while k < usages[i].orphans.len()
            invariant
                i < usages@.len(),
                k <= usages@[i as int].orphans@.len(),
                more == usages@[i as int].orphans.deep_view(),
                orphans.deep_view() == before + more.take(k as int),
            decreases usages@[i as int].orphans@.len() - k,
        {
            let ghost prior = orphans.deep_view();
            let copy = usages[i].orphans[k].clone();
            orphans.push(copy);
            assert(orphans.deep_view() =~= prior.push(more[k as int]));
            assert(orphans.deep_view() =~= before + more.take(k + 1));
            k += 1;
        }
        assert(more.take(k as int) =~= more);
        i += 1;
    }
    assert(all.len() == usages@.len());
    assert(orphans.deep_view().len() == orphans@.len());
    let sorted = sort_orphans(&orphans);
    assert(sorted.deep_view().len() == sorted@.len());
    let lost = sum_orphans(&sorted);
    StorageInventory {
        data_dir: text::copy_text(data_dir),
        total_bytes: total_bytes,
        wal_bytes: wal_bytes,
        active_bytes: active,
        orphan_bytes: lost,
        databases: databases,
        orphan_storage: sorted,
    }
}

// ---------------------------------------------------------------------------------------------
// Orphans
// ---------------------------------------------------------------------------------------------
/// An entry of a database's directory: what it is, whether it holds pages and nothing else, and
/// how much.
#[derive(Debug)]
pub struct FoundEntry {
    pub name: String,
    pub is_directory: bool,
    pub is_link: bool,
    pub page_only: bool,
    pub bytes: u64,
}

pub struct FoundModel {
    pub name: Seq<char>,
    pub is_directory: bool,
    pub is_link: bool,
    pub page_only: bool,
    pub bytes: u64,
}

impl View for FoundEntry {
    type V = FoundModel;

    open spec fn view(&self) -> FoundModel {
        FoundModel {
            name: self.name@,
            is_directory: self.is_directory,
            is_link: self.is_link,
            page_only: self.page_only,
            bytes: self.bytes,
        }
    }
}

impl DeepView for FoundEntry {
    type V = FoundModel;

    open spec fn deep_view(&self) -> FoundModel {
        self@
    }
}

/// Whether an entry is storage that no table owns.
pub open spec fn is_orphan(e: FoundModel, active: Seq<Seq<char>>) -> bool {
    e.is_directory && !e.is_link && !active.contains(e.name) && e.page_only
}

pub open spec fn orphan_of(database: Seq<char>, e: FoundModel) -> OrphanModel {
    OrphanModel { database: database, table: e.name, bytes: e.bytes }
}

/// The orphans among the first `n` entries.
pub open spec fn orphans_among(
    database: Seq<char>,
    active: Seq<Seq<char>>,
    entries: Seq<FoundModel>,
    n: int,
) -> Seq<OrphanModel>
    decreases n,
{
    if n <= 0 || n > entries.len() {
        Seq::empty()
    } else if is_orphan(entries[n - 1], active) {
        orphans_among(database, active, entries, n - 1).push(orphan_of(database, entries[n - 1]))
    } else {
        orphans_among(database, active, entries, n - 1)
    }
}

/// The orphans of a database in the order of their names.
pub fn orphan_storage(database: &str, active: &Vec<String>, entries: &Vec<FoundEntry>) -> (r: Vec<OrphanStorage>)
    ensures
        ({
            let found = orphans_among(
                database@,
                active.deep_view(),
                entries.deep_view(),
                entries@.len() as int,
            );
            r.deep_view() == orphans_in_order(found, found.len() as int)
        }),
{
    let ghost all = entries.deep_view();
    let ghost names = active.deep_view();
    let mut out: Vec<OrphanStorage> = Vec::new();
    let mut i: usize = 0;
    assert(out.deep_view() =~= Seq::empty());
    while i < entries.len()
        invariant
            i <= entries@.len(),
            all == entries.deep_view(),
            names == active.deep_view(),
            out.deep_view() == orphans_among(database@, names, all, i as int),
        decreases entries@.len() - i,
    {
        assert(all[i as int] == entries@[i as int]@);
        let ghost before = out.deep_view();
        let e = &entries[i];
        if e.is_directory && !e.is_link && !assoc::has_name(active, e.name.as_str()) && e.page_only {
            out.push(
                OrphanStorage {
                    database: text::copy_text(database),
                    table: text::copy_text(e.name.as_str()),
                    bytes: e.bytes,
                },
            );
            assert(out.deep_view() =~= before.push(orphan_of(database@, all[i as int])));
        }
        i += 1;
    }
    assert(out.deep_view().len() == out@.len());
    sort_orphans(&out)
}

/// Whether a folder that was found orphaned may still be removed.
pub fn may_remove(table: &str, active: &Vec<String>, page_only: bool) -> (r: bool)
    ensures
        r == (!active.deep_view().contains(table@) && page_only),
{
    !assoc::has_name(active, table) && page_only
}

/// No table that is in use is among the orphans.
pub proof fn used_tables_are_not_orphans(
    database: Seq<char>,
    active: Seq<Seq<char>>,
    entries: Seq<FoundModel>,
    n: int,
    i: int,
)
    requires
        0 <= n <= entries.len(),
        0 <= i < orphans_among(database, active, entries, n).len(),
    ensures
        !active.contains(orphans_among(database, active, entries, n)[i].table),
    decreases n,
{
    if n > 0 {
        if i < orphans_among(database, active, entries, n - 1).len() {
            used_tables_are_not_orphans(database, active, entries, n - 1, i);
        }
    }
}

} // verus!
