//! What the inventory, the security rules, updates, migrations and the agent's advice come to.
use crate::agent;
use crate::assoc;
use crate::cells;
use crate::cells::CellModel;
use crate::config::ConfigModel;
use crate::inventory;
use crate::inventory::{DatabaseInventoryModel, FoundModel, OrphanModel, UsageModel};
use crate::migrate;
use crate::search;
use crate::security;
use crate::text;
use crate::update;
use vstd::prelude::*;

verus! {

// ---------------------------------------------------------------------------------------------
// Inventory
// ---------------------------------------------------------------------------------------------
/// The orphans of a database are the folders of pages, not links, of tables that are not in use;
/// all of them, each with its size.
pub proof fn unused_folders_are_orphans(
    database: Seq<char>,
    active: Seq<Seq<char>>,
    entries: Seq<FoundModel>,
    n: int,
    o: OrphanModel,
)
    requires
        0 <= n <= entries.len(),
    ensures
        inventory::orphans_among(database, active, entries, n).contains(o) <==> exists|i: int|
            0 <= i < n && (#[trigger] entries[i]).is_directory && !entries[i].is_link
                && entries[i].page_only && !active.contains(entries[i].name) && o.database
                == database && o.table == entries[i].name && o.bytes == entries[i].bytes,
    decreases n,
{
    if n > 0 {
        unused_folders_are_orphans(database, active, entries, n - 1, o);
        let before = inventory::orphans_among(database, active, entries, n - 1);
        let e = entries[n - 1];
        let x = inventory::orphan_of(database, e);
        if inventory::is_orphan(e, active) {
            let after = before.push(x);
            if after.contains(o) {
                let i = after.index_of(o);
                if i < before.len() {
                    assert(before[i] == o);
                    assert(before.contains(o));
                } else {
                    assert(entries[n - 1] == e);
                }
            }
            if before.contains(o) {
                assert(after[before.index_of(o)] == o);
            }
            assert(after[before.len() as int] == x);
            if o.database == database && o.table == e.name && o.bytes == e.bytes {
                assert(o == x);
            }
        }
    }
}

proof fn orphan_place_is(list: Seq<OrphanModel>, x: OrphanModel, at: int)
    requires
        0 <= at <= list.len(),
    ensures
        at <= inventory::orphan_place(list, x, at) <= list.len(),
        forall|i: int|
            at <= i < inventory::orphan_place(list, x, at) ==> !inventory::orphan_greater(
                #[trigger] list[i],
                x,
            ),
        inventory::orphan_place(list, x, at) < list.len() ==> inventory::orphan_greater(
            list[inventory::orphan_place(list, x, at)],
            x,
        ),
    decreases list.len() - at,
{
    if at < list.len() && !inventory::orphan_greater(list[at], x) {
        orphan_place_is(list, x, at + 1);
    }
}

/// Whether an orphan stands behind another: by database, and within one by table.
pub open spec fn stands_behind(a: OrphanModel, b: OrphanModel) -> bool {
    assoc::text_less(b.database, a.database) || (a.database == b.database && assoc::text_less(
        b.table,
        a.table,
    ))
}

proof fn behind_transitive(a: OrphanModel, b: OrphanModel, c: OrphanModel)
    requires
        stands_behind(a, b),
        stands_behind(b, c),
    ensures
        stands_behind(a, c),
{
    if assoc::text_less(b.database, a.database) && assoc::text_less(c.database, b.database) {
        assoc::less_transitive(c.database, b.database, a.database);
    }
    if assoc::text_less(b.table, a.table) && assoc::text_less(c.table, b.table) {
        assoc::less_transitive(c.table, b.table, a.table);
    }
}

proof fn behind_irreflexive(a: OrphanModel)
    ensures
        !stands_behind(a, a),
{
    assoc::less_irreflexive(a.database);
    assoc::less_irreflexive(a.table);
}

/// Sorting orphans loses none and adds none.
pub proof fn sorting_keeps_the_orphans(list: Seq<OrphanModel>, n: int)
    requires
        0 <= n <= list.len(),
    ensures
        inventory::orphans_in_order(list, n).to_multiset() == list.take(n).to_multiset(),
        inventory::orphans_in_order(list, n).len() == n,
    decreases n,
{
    if n > 0 {
        sorting_keeps_the_orphans(list, n - 1);
        let before = inventory::orphans_in_order(list, n - 1);
        let x = list[n - 1];
        orphan_place_is(before, x, 0);
        let p = inventory::orphan_place(before, x, 0);
        before.to_multiset_ensures();
        list.take(n - 1).to_multiset_ensures();
        assert(list.take(n) =~= list.take(n - 1).push(x));
        let after = before.insert(p, x);
        after.to_multiset_ensures();
        assert(after.remove(p) =~= before);
        assert(after[p] == x);
        assert(after.contains(x));
        assert(after.to_multiset() =~= before.to_multiset().insert(x));
    } else {
        assert(list.take(0) =~= Seq::empty());
    }
}

/// Orphans stand in order.
pub proof fn orphans_are_sorted(list: Seq<OrphanModel>, n: int, i: int, j: int)
    requires
        0 <= n <= list.len(),
        0 <= i < j < inventory::orphans_in_order(list, n).len(),
    ensures
        !stands_behind(
            inventory::orphans_in_order(list, n)[i],
            inventory::orphans_in_order(list, n)[j],
        ),
    decreases n,
{
    let before = inventory::orphans_in_order(list, n - 1);
    let x = list[n - 1];
    let p = inventory::orphan_place(before, x, 0);
    orphan_place_is(before, x, 0);
    if j < p {
        orphans_are_sorted(list, n - 1, i, j);
    } else if j == p {
        assert(!inventory::orphan_greater(before[i], x));
    } else if i < p {
        orphans_are_sorted(list, n - 1, i, j - 1);
    } else if i > p {
        orphans_are_sorted(list, n - 1, i - 1, j - 1);
    } else {
        let y = before[j - 1];
        if stands_behind(x, y) {
            behind_transitive(before[p], x, y);
            if j - 1 > p {
                orphans_are_sorted(list, n - 1, p, j - 1);
            } else {
                behind_irreflexive(y);
            }
        }
    }
}

/// The orphans of all databases are those of each, and their sizes add up.
pub proof fn orphans_of_all_databases(list: Seq<UsageModel>, u: UsageModel, o: OrphanModel, x: Seq<OrphanModel>)
    ensures
        inventory::all_orphans(list.push(u), list.len() as int + 1) == inventory::all_orphans(
            list,
            list.len() as int,
        ) + u.orphans,
        inventory::orphan_sum(x.push(o), x.len() as int + 1) == inventory::orphan_sum(x, x.len() as int)
            + o.bytes,
        inventory::orphan_sum(u.orphans, u.orphans.len() as int) <= u.bytes
            ==> inventory::owned_bytes(list.push(u), list.len() as int + 1) + inventory::orphan_sum(
            u.orphans,
            u.orphans.len() as int,
        ) == inventory::owned_bytes(list, list.len() as int) + u.bytes,
{
    usage_prefix(list, u, list.len() as int);
    sum_prefix(x, o, x.len() as int);
}

proof fn usage_prefix(list: Seq<UsageModel>, u: UsageModel, n: int)
    requires
        0 <= n <= list.len(),
    ensures
        inventory::all_orphans(list.push(u), n) == inventory::all_orphans(list, n),
        inventory::owned_bytes(list.push(u), n) == inventory::owned_bytes(list, n),
    decreases n,
{
    if n > 0 {
        usage_prefix(list, u, n - 1);
        assert(list.push(u)[n - 1] == list[n - 1]);
    }
}

proof fn sum_prefix(x: Seq<OrphanModel>, o: OrphanModel, n: int)
    requires
        0 <= n <= x.len(),
    ensures
        inventory::orphan_sum(x.push(o), n) == inventory::orphan_sum(x, n),
    decreases n,
{
    if n > 0 {
        sum_prefix(x, o, n - 1);
        assert(x.push(o)[n - 1] == x[n - 1]);
    }
}

proof fn database_place_is(
    list: Seq<DatabaseInventoryModel>,
    x: DatabaseInventoryModel,
    at: int,
)
    requires
        0 <= at <= list.len(),
    ensures
        at <= inventory::database_place(list, x, at) <= list.len(),
        forall|i: int|
            at <= i < inventory::database_place(list, x, at) ==> !assoc::text_less(
                x.database,
                (#[trigger] list[i]).database,
            ),
        inventory::database_place(list, x, at) < list.len() ==> assoc::text_less(
            x.database,
            list[inventory::database_place(list, x, at)].database,
        ),
    decreases list.len() - at,
{
    if at < list.len() && !assoc::text_less(x.database, list[at].database) {
        database_place_is(list, x, at + 1);
    }
}

/// The databases of an inventory stand in the order of their names, and each that was found is
/// there with its size.
pub proof fn databases_are_listed_in_order(list: Seq<UsageModel>, n: int, k: int)
    requires
        0 <= n <= list.len(),
    ensures
        inventory::databases_in_order(list, n).len() == n,
        0 <= k < n ==> exists|i: int|
            0 <= i < n && (#[trigger] inventory::databases_in_order(list, n)[i]).database
                == list[k].database && inventory::databases_in_order(list, n)[i].bytes
                == list[k].bytes,
        forall|i: int, j: int|
            0 <= i < j < n ==> !assoc::text_less(
                (#[trigger] inventory::databases_in_order(list, n)[j]).database,
                (#[trigger] inventory::databases_in_order(list, n)[i]).database,
            ),
    decreases n,
{
    if n > 0 {
        databases_are_listed_in_order(list, n - 1, k);
        let before = inventory::databases_in_order(list, n - 1);
        let x = inventory::usage_item(list[n - 1]);
        let p = inventory::database_place(before, x, 0);
        database_place_is(before, x, 0);
        let after = before.insert(p, x);
        assert(after == inventory::databases_in_order(list, n));
        if 0 <= k < n - 1 {
            let i = choose|i: int|
                0 <= i < n - 1 && (#[trigger] before[i]).database == list[k].database
                    && before[i].bytes == list[k].bytes;
            if i < p {
                assert(after[i] == before[i]);
            } else {
                assert(after[i + 1] == before[i]);
            }
        } else if k == n - 1 {
            assert(after[p] == x);
        }
        assert forall|i: int, j: int| 0 <= i < j < n implies !assoc::text_less(
            (#[trigger] after[j]).database,
            (#[trigger] after[i]).database,
        ) by {
            if j < p {
                assert(after[i] == before[i] && after[j] == before[j]);
            } else if j == p {
                assert(after[i] == before[i]);
            } else if i < p {
                assert(after[i] == before[i] && after[j] == before[j - 1]);
            } else if i > p {
                assert(after[i] == before[i - 1] && after[j] == before[j - 1]);
            } else {
                let y = before[j - 1];
                assert(after[j] == y);
                if assoc::text_less(y.database, x.database) {
                    assoc::less_transitive(y.database, x.database, before[p].database);
                    if j - 1 > p {
                        assert(!assoc::text_less(before[j - 1].database, before[p].database));
                    } else {
                        assoc::less_irreflexive(y.database);
                    }
                }
            }
        }
    }
}

// ---------------------------------------------------------------------------------------------
// Security
// ---------------------------------------------------------------------------------------------
/// A configuration that is accepted has a certificate with a key or neither, and both secrets;
/// where strong secrets are asked for, each has at least twenty bytes, neither is a placeholder or
/// blank, and they differ.
pub proof fn accepted_configs_keep_the_rules(c: ConfigModel)
    requires
        security::security_fault(c) is None,
    ensures
        c.security.tls_cert is Some <==> c.security.tls_key is Some,
        c.security.require_secure_transport ==> c.security.tls_cert is Some,
        c.security.default_password.len() > 0,
        c.http.admin_password.len() > 0,
        c.security.enforce_strong_passwords ==> {
            &&& text::bytes_of(c.security.default_password).len() >= 20
            &&& text::bytes_of(c.http.admin_password).len() >= 20
            &&& c.security.default_password != c.http.admin_password
            &&& !search::contains_text(text::upper(c.security.default_password), "CHANGE_ME"@)
            &&& !search::contains_text(text::upper(c.http.admin_password), "CHANGE_ME"@)
            &&& exists|i: int|
                0 <= i < c.security.default_password.len() && !text::is_white(
                    #[trigger] c.security.default_password[i],
                )
            &&& exists|i: int|
                0 <= i < c.http.admin_password.len() && !text::is_white(
                    #[trigger] c.http.admin_password[i],
                )
        },
{
}

/// A configuration that keeps the rules is accepted.
pub proof fn sound_configs_are_accepted(c: ConfigModel)
    requires
        c.security.tls_cert is Some <==> c.security.tls_key is Some,
        c.security.require_secure_transport ==> c.security.tls_cert is Some,
        c.security.default_password.len() > 0,
        c.http.admin_password.len() > 0,
        c.security.enforce_strong_passwords ==> strong(c.security.default_password) && strong(
            c.http.admin_password,
        ) && c.security.default_password != c.http.admin_password,
    ensures
        security::security_fault(c) is None,
{
}

/// Whether a secret is strong: long enough, and not a placeholder.
pub open spec fn strong(s: Seq<char>) -> bool {
    &&& text::bytes_of(s).len() >= 20
    &&& !text::same_fold(s, "root"@)
    &&& !search::contains_text(text::upper(s), "CHANGE_ME"@)
    &&& exists|i: int| 0 <= i < s.len() && !text::is_white(#[trigger] s[i])
}

/// A request is let in with the bearer's password, and not without a header or with one of another
/// length.
pub proof fn the_password_lets_in(password: Seq<char>, header: Seq<char>)
    ensures
        security::authorized(password, Some("Bearer "@ + password)),
        !security::authorized(password, None),
        text::bytes_of(header).len() != text::bytes_of("Bearer "@ + password).len()
            ==> !security::authorized(password, Some(header)),
{
}

/// Redacting a configuration hides its two secrets and changes nothing else.
pub proof fn redaction_changes_the_secrets_only(c: ConfigModel)
    ensures
        ({
            let r = security::redacted(c);
            &&& r.security.default_password == "<redacted>"@
            &&& r.http.admin_password == "<redacted>"@
            &&& r.server == c.server && r.storage == c.storage && r.memory == c.memory
            &&& r.backup == c.backup && r.logging == c.logging
            &&& r.character_set == c.character_set && r.agent == c.agent
            &&& r.http.host == c.http.host && r.http.port == c.http.port && r.http.enabled
                == c.http.enabled
            &&& r.security.tls_cert == c.security.tls_cert && r.security.tls_key
                == c.security.tls_key
            &&& r.security.require_secure_transport == c.security.require_secure_transport
            &&& r.security.enforce_strong_passwords == c.security.enforce_strong_passwords
        }),
{
}

/// A configuration that is taken over at run time keeps all that needs a restart, keeps a secret
/// where it was sent back hidden, and takes over a new one.
pub proof fn reloading_keeps_what_needs_a_restart(current: ConfigModel, candidate: ConfigModel)
    ensures
        security::runtime_config(current, candidate) matches Ok(c) ==> {
            &&& c.server == current.server && c.storage == current.storage && c.memory
                == current.memory
            &&& c.logging == current.logging && c.character_set == current.character_set
            &&& c.http.host == current.http.host && c.http.port == current.http.port
                && c.http.enabled == current.http.enabled
            &&& candidate.security.default_password == "<redacted>"@ ==> c.security.default_password
                == current.security.default_password
            &&& candidate.security.default_password != "<redacted>"@ ==> c.security.default_password
                == candidate.security.default_password
            &&& candidate.http.admin_password == "<redacted>"@ ==> c.http.admin_password
                == current.http.admin_password
            &&& candidate.http.admin_password != "<redacted>"@ ==> c.http.admin_password
                == candidate.http.admin_password
            &&& c.backup == candidate.backup && c.agent == candidate.agent
            &&& c.security.tls_cert == candidate.security.tls_cert
            &&& security::security_fault(c) is None
        },
{
}

// ---------------------------------------------------------------------------------------------
// Updates
// ---------------------------------------------------------------------------------------------
/// A package is accepted exactly where the first word of its sidecar spells its checksum, in large
/// or small letters.
pub proof fn packages_are_accepted_by_their_checksum(
    sidecar: Seq<char>,
    actual: Seq<char>,
    name: Seq<char>,
)
    requires
        actual.len() == 64,
        update::hex_only(actual),
    ensures
        update::checked_package(sidecar, actual, name) is Ok <==> search::words(sidecar).len() > 0
            && text::fold(search::words(sidecar)[0]) == actual,
        update::checked_package(sidecar, actual, name) matches Ok(sum) ==> sum == actual,
{
}

proof fn missing_means(needed: Seq<Seq<char>>, regular: Seq<Seq<char>>, at: int)
    requires
        0 <= at <= needed.len(),
    ensures
        update::first_missing(needed, regular, at) is None <==> forall|i: int|
            at <= i < needed.len() ==> regular.contains(#[trigger] needed[i]),
    decreases needed.len() - at,
{
    if at < needed.len() {
        missing_means(needed, regular, at + 1);
    }
}

/// A package that is accepted holds every program and the installer, and no router.
pub proof fn accepted_packages_are_complete(
    dir: Seq<char>,
    installer: Seq<char>,
    windows: bool,
    regular: Seq<Seq<char>>,
    present: Seq<Seq<char>>,
)
    requires
        update::checked_source(dir, installer, windows, regular, present) is Ok,
    ensures
        regular.contains(installer),
        !windows ==> regular.contains("mydb-server"@) && regular.contains("mydb-cli"@)
            && regular.contains("mydb"@) && regular.contains("mydb-migrate"@) && regular.contains(
            "mydbdump"@,
        ),
        windows ==> regular.contains("mydb-server"@ + ".exe"@) && regular.contains(
            "mydb-cli"@ + ".exe"@,
        ) && regular.contains("mydb"@ + ".exe"@) && regular.contains("mydb-migrate"@ + ".exe"@)
            && regular.contains("mydbdump"@ + ".exe"@),
        !present.contains("mydb-router"@),
        !present.contains("mydb-router.exe"@),
{
    let needed = update::needed_files(installer, windows);
    missing_means(needed, regular, 0);
    assert(needed.len() == 6);
    assert(needed[0] == update::binary("mydb-server"@, windows));
    assert(needed[1] == update::binary("mydb-cli"@, windows));
    assert(needed[2] == update::binary("mydb"@, windows));
    assert(needed[3] == update::binary("mydb-migrate"@, windows));
    assert(needed[4] == update::binary("mydbdump"@, windows));
    assert(needed[5] == installer);
}

proof fn first_true_is(s: Seq<bool>, at: int)
    requires
        0 <= at <= s.len(),
    ensures
        update::first_true(s, at) matches Some(i) ==> at <= i < s.len() && s[i] && forall|j: int|
            at <= j < i ==> !#[trigger] s[j],
        update::first_true(s, at) is None ==> forall|j: int| at <= j < s.len() ==> !#[trigger] s[j],
    decreases s.len() - at,
{
    if at < s.len() && !s[at] {
        first_true_is(s, at + 1);
    }
}

/// The programs are looked for at the top of an archive, then in its folders, the first that holds
/// the server.
pub proof fn programs_are_found_where_the_server_is(top: bool, holds_server: Seq<bool>, windows: bool)
    ensures
        top ==> update::source_place(top, holds_server, windows) == Ok::<Option<int>, Seq<char>>(None),
        !top ==> (update::source_place(top, holds_server, windows) is Err <==> forall|j: int|
            0 <= j < holds_server.len() ==> !#[trigger] holds_server[j]),
        !top ==> (update::source_place(top, holds_server, windows) matches Ok(found) ==> (
        found matches Some(i) && 0 <= i < holds_server.len() && holds_server[i] && forall|j: int|
            0 <= j < i ==> !#[trigger] holds_server[j])),
{
    first_true_is(holds_server, 0);
}

/// Entries that lead out of the folder are refused: absolute ones, those with a drive, and those
/// that begin by climbing.
pub proof fn entries_that_lead_out_are_refused(rest: Seq<char>)
    requires
        rest.len() > 0,
        !text::is_white(rest.last()),
    ensures
        !update::stays_inside(seq!['/'] + rest),
        !update::stays_inside(seq!['C', ':', '\\'] + rest),
        !update::stays_inside(seq!['.', '.', '/'] + rest),
        !update::stays_inside(seq!['.', '.', '\\'] + rest),
{
    let a = seq!['/'] + rest;
    let b = seq!['C', ':', '\\'] + rest;
    let c = seq!['.', '.', '/'] + rest;
    let d = seq!['.', '.', '\\'] + rest;
    assert(text::trim_start_by(a, text::white_fn()) == a);
    assert(text::trim_start_by(b, text::white_fn()) == b);
    assert(text::trim_start_by(c, text::white_fn()) == c);
    assert(text::trim_start_by(d, text::white_fn()) == d);
    assert(a.last() == rest.last() && b.last() == rest.last() && c.last() == rest.last() && d.last()
        == rest.last());
    assert(text::trim(a) == a && text::trim(b) == b && text::trim(c) == c && text::trim(d) == d);
    assert(b[1] == ':');
    let p = update::path_mark();
    reveal_strlit("..");
    assert(".."@ =~= seq!['.', '.']);
    reveal_with_fuel(search::split_by, 4);
    assert(c.subrange(0, 2) =~= ".."@);
    assert(d.subrange(0, 2) =~= ".."@);
    assert(search::split_by(c, p, 0, 0)[0] == c.subrange(0, 2));
    assert(search::split_by(d, p, 0, 0)[0] == d.subrange(0, 2));
    assert(update::climbs(c));
    assert(update::climbs(d));
}

/// A release is packed for its system: a zip with a PowerShell installer for Windows, a tarball with
/// a shell installer for Linux and macOS. Others have none.
pub proof fn releases_are_packed_for_their_system(arch: Seq<char>, os: Seq<char>)
    ensures
        update::asset_for(arch, os) is Ok <==> (arch == "x86_64"@ || arch == "aarch64"@) && (os
            == "windows"@ || os == "linux"@ || os == "macos"@),
        update::asset_for(arch, os) matches Ok(a) ==> {
            &&& os == "windows"@ ==> a.kind is Zip && a.installer_name == "install.ps1"@
                && a.archive_name == "mydb-windows-"@ + arch + ".zip"@
            &&& os == "linux"@ ==> a.kind is TarGz && a.installer_name == "install.sh"@
                && a.archive_name == "mydb-"@ + "linux"@ + "-"@ + arch + ".tar.gz"@
            &&& os == "macos"@ ==> a.kind is TarGz && a.installer_name == "install.sh"@
                && a.archive_name == "mydb-"@ + "macos"@ + "-"@ + arch + ".tar.gz"@
        },
{
    reveal_strlit("windows");
    reveal_strlit("linux");
    reveal_strlit("macos");
    assert("windows"@.len() == 7 && "linux"@.len() == 5 && "macos"@.len() == 5);
    assert("linux"@[0] == 'l' && "macos"@[0] == 'm');
}

// ---------------------------------------------------------------------------------------------
// Migrations
// ---------------------------------------------------------------------------------------------
proof fn unknown_means(available: Seq<Seq<char>>, requested: Seq<Seq<char>>, at: int)
    requires
        0 <= at <= requested.len(),
    ensures
        migrate::first_unknown(available, requested, at) is None <==> forall|i: int|
            at <= i < requested.len() ==> available.contains(#[trigger] requested[i]),
    decreases requested.len() - at,
{
    if at < requested.len() {
        unknown_means(available, requested, at + 1);
    }
}

/// A migration copies the tables that were asked for, all of them there, or all tables.
pub proof fn migrations_copy_what_was_asked_for(available: Seq<Seq<char>>, requested: Seq<Seq<char>>)
    ensures
        requested.len() == 0 ==> migrate::chosen_tables(available, requested) == Ok::<
            Seq<Seq<char>>,
            Seq<char>,
        >(available),
        requested.len() > 0 ==> (migrate::chosen_tables(available, requested) is Ok <==> forall|
            i: int,
        |
            0 <= i < requested.len() ==> available.contains(#[trigger] requested[i])),
        requested.len() > 0 ==> (migrate::chosen_tables(available, requested) matches Ok(list)
            ==> list == requested),
{
    unknown_means(available, requested, 0);
}

/// A table that is there is dropped only where that was asked for, and is otherwise in the way.
pub proof fn tables_are_dropped_on_request_only(
    table: Seq<char>,
    present: Seq<Seq<char>>,
    drop_existing: bool,
)
    ensures
        migrate::must_drop(table, present, drop_existing) == Ok::<bool, Seq<char>>(true) <==> (
        present.contains(table) && drop_existing),
        migrate::must_drop(table, present, drop_existing) is Err <==> (present.contains(table)
            && !drop_existing),
{
}

/// Every row of a batch is written, with as many values as there are columns.
pub proof fn every_row_of_a_batch_is_written(
    rows: Seq<Seq<CellModel>>,
    columns: nat,
    n: int,
    i: int,
)
    requires
        0 <= i < n <= rows.len(),
    ensures
        migrate::tuples_of(rows, columns, n) matches Ok(tuples) ==> tuples.len() == n && rows[i].len()
            == columns && cells::tuple_of(rows[i], true, "migrate"@) == Ok::<Seq<char>, Seq<char>>(
            tuples[i],
        ),
    decreases n,
{
    if i < n - 1 {
        every_row_of_a_batch_is_written(rows, columns, n - 1, i);
    } else if n > 1 {
        every_row_of_a_batch_is_written(rows, columns, n - 1, 0);
    } else {
        reveal_with_fuel(migrate::tuples_of, 2);
    }
}

/// A copy is reported as right only where as many rows were read, written and found, and what was
/// found digests as what was read.
pub proof fn unfaithful_copies_are_not_verified(
    table: Seq<char>,
    source_rows: u64,
    copied: u64,
    source: Seq<Seq<u8>>,
    target: Seq<Seq<u8>>,
    ms: u128,
)
    ensures
        ({
            let r = migrate::reported(table, source_rows, copied, source, target, ms);
            &&& copied != source_rows ==> !r.verified
            &&& cells::table_digest(source) != cells::table_digest(target) ==> !r.verified
            &&& r.table == table && r.source_rows == source_rows && r.copied_rows == copied
            &&& target.len() <= u64::MAX ==> r.target_rows == target.len()
            &&& r.source_checksum == cells::table_digest(source)
            &&& r.target_checksum == cells::table_digest(target)
        }),
{
}

/// An address given on the command line counts before one in the environment.
pub proof fn given_addresses_count_first(
    value: Option<Seq<char>>,
    other: Option<Seq<char>>,
    variable: Seq<char>,
    flag: Seq<char>,
)
    ensures
        value matches Some(u) ==> migrate::url_of(value, other, variable, flag) == Ok::<
            Seq<char>,
            Seq<char>,
        >(u),
        value is None ==> (other matches Some(u) ==> migrate::url_of(value, other, variable, flag)
            == Ok::<Seq<char>, Seq<char>>(u)),
        value is None && other is None ==> migrate::url_of(value, other, variable, flag) is Err,
{
}

// ---------------------------------------------------------------------------------------------
// Advice
// ---------------------------------------------------------------------------------------------
/// The phase that is named as dominant took as long as any other.
pub proof fn the_dominant_phase_took_longest(prepare: u64, sync: u64, apply: u64, checkpoint: u64)
    ensures
        ({
            let phase = agent::dominant_phase(prepare, sync, apply, checkpoint);
            &&& phase == "checkpoint"@ ==> checkpoint >= prepare && checkpoint >= sync && checkpoint
                >= apply
            &&& phase == "apply"@ ==> apply >= prepare && apply >= sync && apply > checkpoint
            &&& phase == "WAL fsync"@ ==> sync >= prepare && sync > apply && sync > checkpoint
            &&& phase == "prepare/validation"@ ==> prepare > sync && prepare > apply && prepare
                > checkpoint
            &&& phase == "checkpoint"@ || phase == "apply"@ || phase == "WAL fsync"@ || phase
                == "prepare/validation"@
        }),
{
    reveal_strlit("checkpoint");
    reveal_strlit("apply");
    reveal_strlit("WAL fsync");
    reveal_strlit("prepare/validation");
    assert("checkpoint"@.len() == 10 && "apply"@.len() == 5 && "WAL fsync"@.len() == 9
        && "prepare/validation"@.len() == 18);
}

/// Each fault is reported where it is there, and only where there is none that is said.
pub proof fn faults_are_reported(
    query_errors: u64,
    storage_errors: u64,
    queue_depth: usize,
    lock_timeouts: u64,
)
    ensures
        ({
            let list = agent::advice(query_errors, storage_errors, queue_depth, lock_timeouts);
            &&& storage_errors > 0 ==> list.contains(
                "storage errors detected: inspect server log and disk health"@,
            )
            &&& queue_depth > 256 ==> list.contains(
                "write actor queue elevated: batch game-state writes and reduce transaction size"@,
            )
            &&& query_errors > 0 ==> list.contains(
                "SQL errors detected: inspect /api/v1/agent/slow-queries"@,
            )
            &&& lock_timeouts > 0 ==> list.contains(
                "lock wait timeouts detected: inspect transaction scope and keep actor writes keyed by primary key"@,
            )
            &&& storage_errors == 0 && queue_depth <= 256 && query_errors == 0 && lock_timeouts == 0
                ==> list == seq!["no active fault detected"@]
            &&& list.len() == faults(query_errors, storage_errors, queue_depth, lock_timeouts)
        }),
{
    let a = agent::pushed_if(
        Seq::empty(),
        storage_errors > 0,
        "storage errors detected: inspect server log and disk health"@,
    );
    let b = agent::pushed_if(
        a,
        queue_depth > 256,
        "write actor queue elevated: batch game-state writes and reduce transaction size"@,
    );
    let c = agent::pushed_if(
        b,
        query_errors > 0,
        "SQL errors detected: inspect /api/v1/agent/slow-queries"@,
    );
    let d = agent::pushed_if(
        c,
        lock_timeouts > 0,
        "lock wait timeouts detected: inspect transaction scope and keep actor writes keyed by primary key"@,
    );
    let list = agent::advice(query_errors, storage_errors, queue_depth, lock_timeouts);
    assert(list == agent::pushed_if(d, d.len() == 0, "no active fault detected"@));
    if storage_errors > 0 {
        assert(a.len() == 1 && a[0] == b[0] && b[0] == c[0] && c[0] == d[0] && d[0] == list[0]);
    }
    if queue_depth > 256 {
        let i = a.len() as int;
        assert(b[i] == c[i] && c[i] == d[i] && d[i] == list[i]);
    }
    if query_errors > 0 {
        let i = b.len() as int;
        assert(c[i] == d[i] && d[i] == list[i]);
    }
    if lock_timeouts > 0 {
        let i = c.len() as int;
        assert(d[i] == list[i]);
    }
    if storage_errors == 0 && queue_depth <= 256 && query_errors == 0 && lock_timeouts == 0 {
        assert(list =~= seq!["no active fault detected"@]);
    }
}

/// How many lines of advice there are: one for each fault, and one where there is none.
pub open spec fn faults(
    query_errors: u64,
    storage_errors: u64,
    queue_depth: usize,
    lock_timeouts: u64,
) -> nat {
    let n = (if query_errors > 0 {
        1nat
    } else {
        0
    }) + (if storage_errors > 0 {
        1nat
    } else {
        0
    }) + (if queue_depth > 256 {
        1nat
    } else {
        0
    }) + (if lock_timeouts > 0 {
        1nat
    } else {
        0
    });
    if n == 0 {
        1
    } else {
        n
    }
}

/// A question is answered by what it asks about: backups before connections, connections before
/// locks, locks before slow queries, and these before writes.
pub proof fn questions_are_sorted_by_subject(q: Seq<char>)
    requires
        q.len() > 0,
    ensures
        agent::says(q, "backup"@) || agent::says(q, "restore"@) ==> agent::intent_of(q) is Backup,
        !(agent::intent_of(q) is Backup) && (agent::says(q, "reconnect"@) || agent::says(
            q,
            "connection"@,
        )) ==> agent::intent_of(q) is Connections,
        !(agent::intent_of(q) is Backup || agent::intent_of(q) is Connections) && (agent::says(
            q,
            "deadlock"@,
        ) || agent::says(q, "lock timeout"@)) ==> agent::intent_of(q) is Locks,
        !(agent::intent_of(q) is Backup || agent::intent_of(q) is Connections || agent::intent_of(
            q,
        ) is Locks) && (agent::says(q, "slow query"@) || agent::says(q, "slow sql"@))
            ==> agent::intent_of(q) is SlowQueries,
        agent::intent_of(q) is Unknown ==> !agent::says(q, "write"@) && !agent::says(q, "storage"@)
            && !agent::says(q, "sql"@) && !agent::says(q, "index"@) && !agent::says(q, "health"@)
            && !agent::says(q, "status"@),
{
}

} // verus!
