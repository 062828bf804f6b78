//! Updating an installation: release tags, packages, their checksums and what they may hold.
use crate::assoc;
use crate::error;
use crate::error::{DbError, DbResult};
use crate::num;
use crate::page;
use crate::search;
use crate::text;
use vstd::prelude::*;

verus! {

/// What the user asks of an update.
#[derive(Debug)]
pub struct UpdateOptions {
    /// Release tag to install, or `latest` for the newest stable release.
    pub version: String,
    /// Download and verify the package without changing installed binaries.
    pub check: bool,
    /// Directory containing the installed binaries.
    pub install_dir: Option<String>,
    /// Service name to stop and restart while updating the server binary.
    pub service_name: Option<String>,
}

#[derive(Debug, Clone, Copy, PartialEq, Eq, Structural)]
pub enum ArchiveKind {
    TarGz,
    Zip,
}

/// The package of a release for one platform.
#[derive(Debug)]
pub struct ReleaseAsset {
    pub archive_name: String,
    pub installer_name: String,
    pub kind: ArchiveKind,
}

pub struct ReleaseAssetModel {
    pub archive_name: Seq<char>,
    pub installer_name: Seq<char>,
    pub kind: ArchiveKind,
}

impl View for ReleaseAsset {
    type V = ReleaseAssetModel;

    open spec fn view(&self) -> ReleaseAssetModel {
        ReleaseAssetModel {
            archive_name: self.archive_name@,
            installer_name: self.installer_name@,
            kind: self.kind,
        }
    }
}

impl DeepView for ReleaseAsset {
    type V = ReleaseAssetModel;

    open spec fn deep_view(&self) -> ReleaseAssetModel {
        self@
    }
}

// ---------------------------------------------------------------------------------------------
// Platforms
// ---------------------------------------------------------------------------------------------
/// The package for an architecture and an operating system, each as the compiler names it.
pub open spec fn asset_for(arch: Seq<char>, os: Seq<char>) -> Result<ReleaseAssetModel, Seq<char>> {
    if arch != "x86_64"@ && arch != "aarch64"@ {
        Err("MyDB update does not support architecture "@ + arch)
    } else if os == "windows"@ {
        Ok(
            ReleaseAssetModel {
                archive_name: "mydb-windows-"@ + arch + ".zip"@,
                installer_name: "install.ps1"@,
                kind: ArchiveKind::Zip,
            },
        )
    } else if os == "linux"@ || os == "macos"@ {
        Ok(
            ReleaseAssetModel {
                archive_name: "mydb-"@ + os + "-"@ + arch + ".tar.gz"@,
                installer_name: "install.sh"@,
                kind: ArchiveKind::TarGz,
            },
        )
    } else {
        Err("MyDB update does not support operating system "@ + os)
    }
}

pub fn release_asset(arch: &str, os: &str) -> (r: DbResult<ReleaseAsset>)
    ensures
        error::outcome(r) == asset_for(arch@, os@),
{
    if !text::text_equal(arch, "x86_64") && !text::text_equal(arch, "aarch64") {
        return Err(DbError::new(error::cat2("MyDB update does not support architecture ", arch)));
    }
    if text::text_equal(os, "windows") {
        return Ok(
            ReleaseAsset {
                archive_name: error::cat3("mydb-windows-", arch, ".zip"),
                installer_name: text::copy_text("install.ps1"),
                kind: ArchiveKind::Zip,
            },
        );
    }
    if text::text_equal(os, "linux") || text::text_equal(os, "macos") {
        return Ok(
            ReleaseAsset {
                archive_name: error::cat5("mydb-", os, "-", arch, ".tar.gz"),
                installer_name: text::copy_text("install.sh"),
                kind: ArchiveKind::TarGz,
            },
        );
    }
    Err(DbError::new(error::cat2("MyDB update does not support operating system ", os)))
}

pub open spec fn binary(stem: Seq<char>, windows: bool) -> Seq<char> {
    if windows {
        stem + ".exe"@
    } else {
        stem
    }
}

pub fn binary_name(stem: &str, windows: bool) -> (r: String)
    ensures
        r@ == binary(stem@, windows),
{
    if windows {
        error::cat2(stem, ".exe")
    } else {
        text::copy_text(stem)
    }
}

pub fn default_service_name(windows: bool) -> (r: String)
    ensures
        r@ == if windows {
            "MyDBServer"@
        } else {
            "mydb"@
        },
{
    if windows {
        text::copy_text("MyDBServer")
    } else {
        text::copy_text("mydb")
    }
}

// ---------------------------------------------------------------------------------------------
// Tags
// ---------------------------------------------------------------------------------------------
pub open spec fn tag_char(c: char) -> bool {
    text::is_alphanumeric(c) || c == '.' || c == '-' || c == '_'
}

pub open spec fn tag_chars(s: Seq<char>) -> bool {
    forall|i: int| 0 <= i < s.len() ==> tag_char(#[trigger] s[i])
}

/// The tag of a version: `latest`, or the version with a `v` before it.
pub open spec fn tag_of(version: Seq<char>) -> Result<Seq<char>, Seq<char>> {
    let v = text::trim(version);
    if text::same_fold(v, "latest"@) {
        Ok("latest"@)
    } else if v.len() == 0 || v.len() > 64 || !tag_chars(v) {
        Err("invalid release version '"@ + v + "'"@)
    } else if v[0] == 'v' {
        Ok(v)
    } else {
        Ok("v"@ + v)
    }
}

fn has_tag_chars(c: &[char]) -> (r: bool)
    ensures
        r == tag_chars(c@),
{
    let mut i: usize = 0;
    while i < c.len()
        invariant
            i <= c@.len(),
            forall|j: int| 0 <= j < i ==> tag_char(#[trigger] c@[j]),
        decreases c@.len() - i,
    {
        let x = c[i];
        if !(text::char_is_alphanumeric(x) || x == '.' || x == '-' || x == '_') {
            assert(!tag_char(c@[i as int]));
            return false;
        }
        i += 1;
    }
    true
}

pub fn normalize_tag(version: &str) -> (r: DbResult<String>)
    ensures
        error::outcome(r) == tag_of(version@),
{
    let v = text::trim_text(version);
    if text::eq_fold(v.as_str(), "latest") {
        return Ok(text::copy_text("latest"));
    }
    let c = text::chars_of(v.as_str());
    if c.len() == 0 || c.len() > 64 || !has_tag_chars(&c) {
        return Err(DbError::new(error::cat3("invalid release version '", v.as_str(), "'")));
    }
    if c[0] == 'v' {
        Ok(v)
    } else {
        Ok(error::cat2("v", v.as_str()))
    }
}

/// Where the files of a release stand.
pub open spec fn base_of(tag: Seq<char>) -> Seq<char> {
    if tag == "latest"@ {
        "https://github.com/"@ + "neko233-com/mydb"@ + "/releases/latest/download"@
    } else {
        "https://github.com/"@ + "neko233-com/mydb"@ + "/releases/download/"@ + tag
    }
}

pub fn release_base(tag: &str) -> (r: String)
    ensures
        r@ == base_of(tag@),
{
    if text::text_equal(tag, "latest") {
        error::cat3("https://github.com/", "neko233-com/mydb", "/releases/latest/download")
    } else {
        error::cat4("https://github.com/", "neko233-com/mydb", "/releases/download/", tag)
    }
}

/// What a mere check reports.
pub fn check_report(tag: &str, archive: &str, checksum: &str) -> (r: String)
    ensures
        r@ == "Update available: "@ + tag@ + " ("@ + archive@ + ", SHA-256 "@ + checksum@ + ")"@,
{
    error::cat7("Update available: ", tag, " (", archive, ", SHA-256 ", checksum, ")")
}

// ---------------------------------------------------------------------------------------------
// Checksums
// ---------------------------------------------------------------------------------------------
pub open spec fn hex_only(s: Seq<char>) -> bool {
    forall|i: int|
        0 <= i < s.len() ==> text::is_digit(#[trigger] s[i]) || ('a' <= s[i] && s[i] <= 'f') || ('A' <= s[i]
            && s[i] <= 'F')
}

fn is_hex_only(c: &[char]) -> (r: bool)
    ensures
        r == hex_only(c@),
{
    let mut i: usize = 0;
    while i < c.len()
        invariant
            i <= c@.len(),
            forall|j: int|
                0 <= j < i ==> text::is_digit(#[trigger] c@[j]) || ('a' <= c@[j] && c@[j] <= 'f') || ('A'
                    <= c@[j] && c@[j] <= 'F'),
        decreases c@.len() - i,
    {
        let x = c[i];
        if !(text::char_is_digit(x) || ('a' <= x && x <= 'f') || ('A' <= x && x <= 'F')) {
            return false;
        }
        i += 1;
    }
    true
}

/// The SHA-256 checksum of bytes in hexadecimal.
pub open spec fn checksum_of(data: Seq<u8>) -> Seq<char> {
    num::hex(page::sha256_digest(data), false)
}

pub fn sha256_hex(data: &[u8]) -> (r: String)
    ensures
        r@ == checksum_of(data@),
{
    let d = page::sha256(data);
    num::hex_text(d.as_slice(), false)
}

/// Whether a package is the one that its sidecar names: the sidecar's first word is its checksum,
/// given in either case, and what follows does not matter.
pub open spec fn checked_package(sidecar: Seq<char>, actual: Seq<char>, name: Seq<char>) -> Result<
    Seq<char>,
    Seq<char>,
> {
    let words = search::words(sidecar);
    if words.len() == 0 {
        Err("empty SHA-256 sidecar"@)
    } else {
        let expected = text::fold(words[0]);
        if expected.len() != 64 || !hex_only(expected) {
            Err("invalid SHA-256 sidecar for "@ + name)
        } else if actual != expected {
            Err(
                "SHA-256 verification failed for "@ + name + ": expected "@ + expected + ", got "@ + actual,
            )
        } else {
            Ok(actual)
        }
    }
}

/// Checks a package's bytes against its sidecar.
pub fn verify_sha256(package: &[u8], sidecar: &str, name: &str) -> (r: DbResult<String>)
    ensures
        error::outcome(r) == checked_package(sidecar@, checksum_of(package@), name@),
{
    let words = search::split_words(sidecar);
    assert(words.deep_view().len() == words@.len());
    if words.len() == 0 {
        return Err(DbError::of("empty SHA-256 sidecar"));
    }
    assert(words.deep_view()[0] == words@[0]@);
    let expected = text::to_lower(words[0].as_str());
    let c = text::chars_of(expected.as_str());
    if c.len() != 64 || !is_hex_only(&c) {
        return Err(DbError::new(error::cat2("invalid SHA-256 sidecar for ", name)));
    }
    let actual = sha256_hex(package);
    if !text::text_equal(actual.as_str(), expected.as_str()) {
        let mut message = error::cat5(
            "SHA-256 verification failed for ",
            name,
            ": expected ",
            expected.as_str(),
            ", got ",
        );
        message.append(actual.as_str());
        return Err(DbError::new(message));
    }
    Ok(actual)
}

// ---------------------------------------------------------------------------------------------
// Listings
// ---------------------------------------------------------------------------------------------
/// An entry without the mark of the archive's own directory before it.
pub open spec fn bare_entry(entry: Seq<char>) -> Seq<char> {
    if entry.len() >= 2 && entry[0] == '.' && (entry[1] == '/' || entry[1] == '\\') {
        entry.skip(2)
    } else {
        entry
    }
}

/// Whether an entry begins with a byte that the archiver shows by its octal number.
pub open spec fn octal_start(s: Seq<char>) -> bool {
    s.len() >= 4 && s[0] == '\\' && text::is_digit(s[1]) && text::is_digit(s[2]) && text::is_digit(s[3])
}

pub open spec fn path_mark() -> spec_fn(char) -> bool {
    |c: char| c == '/' || c == '\\'
}

/// Whether one of a path's parts leads to the directory above.
pub open spec fn climbs(s: Seq<char>) -> bool {
    search::split_by(s, path_mark(), 0, 0).contains(".."@)
}

/// Whether an entry stays inside the directory that the archive is unpacked in.
pub open spec fn stays_inside(line: Seq<char>) -> bool {
    let s = bare_entry(text::trim(line));
    s.len() == 0 || !(s[0] == '/' || (s[0] == '\\' && !octal_start(s)) || search::has_char(s, ':') || climbs(
        s,
    ))
}

/// The first of the lines from `at` on that leads out of the directory.
pub open spec fn first_outside(lines: Seq<Seq<char>>, at: int) -> Option<Seq<char>>
    decreases lines.len() - at,
{
    if at < 0 || at >= lines.len() {
        None
    } else if !stays_inside(lines[at]) {
        Some(text::trim(lines[at]))
    } else {
        first_outside(lines, at + 1)
    }
}

pub open spec fn checked_listing(listing: Seq<char>) -> Result<(), Seq<char>> {
    match first_outside(search::lines(listing), 0) {
        Some(entry) => Err("refusing archive path outside the update staging directory: "@ + entry),
        None => Ok(()),
    }
}

fn has_climb(c: &[char]) -> (r: bool)
    ensures
        r == climbs(c@),
{
    let up = text::chars_of("..");
    let mut from: usize = 0;
    let mut at: usize = 0;
    let ghost whole = search::split_by(c@, path_mark(), 0, 0);
    let ghost mut done: Seq<Seq<char>> = Seq::empty();
    assert(done + whole =~= whole);
    while at < c.len()
        invariant
            from <= at <= c@.len(),
            up@ == ".."@,
            whole == search::split_by(c@, path_mark(), 0, 0),
            whole == done + search::split_by(c@, path_mark(), from as int, at as int),
            !done.contains(".."@),
        decreases c@.len() - at,
    {
        if c[at] == '/' || c[at] == '\\' {
            let part = text::copy_chars(c, from, at);
            let ghost tail = search::split_by(c@, path_mark(), at + 1, at + 1);
            assert(whole =~= done.push(part@) + tail) by {
                assert(done + (seq![part@] + tail) =~= done.push(part@) + tail);
            }
            if text::text_equal(text::text_of(&part).as_str(), "..") {
                assert(whole[done.len() as int] == ".."@);
                return true;
            }
            proof {
                crate::seqs::push_holds(done, part@, ".."@);
                done = done.push(part@);
            }
            at += 1;
            from = at;
        } else {
            at += 1;
        }
    }
    let part = text::copy_chars(c, from, c.len());
    assert(whole =~= done.push(part@));
    proof {
        crate::seqs::push_holds(done, part@, ".."@);
    }
    text::text_equal(text::text_of(&part).as_str(), "..")
}

fn is_inside(c: &[char]) -> (r: bool)
    ensures
        r == stays_inside(c@),
{
    let t = text::trim_chars(c);
    let s = if t.len() >= 2 && t[0] == '.' && (t[1] == '/' || t[1] == '\\') {
        let rest = text::copy_chars(&t, 2, t.len());
        assert(rest@ =~= t@.skip(2));
        rest
    } else {
        t
    };
    if s.len() == 0 {
        return true;
    }
    let octal = s.len() >= 4 && s[0] == '\\' && text::char_is_digit(s[1]) && text::char_is_digit(s[2])
        && text::char_is_digit(s[3]);
    !(s[0] == '/' || (s[0] == '\\' && !octal) || search::chars_have(&s, ':') || has_climb(&s))
}

/// Refuses an archive with an entry that leads out of the directory it is unpacked in.
pub fn validate_archive_listing(listing: &str) -> (r: DbResult<()>)
    ensures
        error::outcome(r) == checked_listing(listing@),
{
    let lines = search::split_lines(listing);
    let ghost all = lines.deep_view();
    let mut i: usize = 0;
    while i < lines.len()
        invariant
            i <= lines@.len(),
            all == lines.deep_view(),
            all == search::lines(listing@),
            first_outside(all, i as int) == first_outside(all, 0),
        decreases lines@.len() - i,
    {
        assert(all[i as int] == lines@[i as int]@);
        let c = text::chars_of(lines[i].as_str());
        if !is_inside(&c) {
            let entry = text::trim_text(lines[i].as_str());
            return Err(
                DbError::new(
                    error::cat2(
                        "refusing archive path outside the update staging directory: ",
                        entry.as_str(),
                    ),
                ),
            );
        }
        i += 1;
    }
    Ok(())
}

// ---------------------------------------------------------------------------------------------
// Packages
// ---------------------------------------------------------------------------------------------
pub open spec fn stems() -> Seq<Seq<char>> {
    seq!["mydb-server"@, "mydb-cli"@, "mydb"@, "mydb-migrate"@, "mydbdump"@]
}

/// The files that a package must hold, in the order in which they are looked for.
pub open spec fn needed_files(installer: Seq<char>, windows: bool) -> Seq<Seq<char>> {
    stems().map_values(|s: Seq<char>| binary(s, windows)).push(installer)
}

pub fn package_files(asset: &ReleaseAsset, windows: bool) -> (r: Vec<String>)
    ensures
        r.deep_view() == needed_files(asset@.installer_name, windows),
{
    let mut out: Vec<String> = Vec::new();
    out.push(binary_name("mydb-server", windows));
    out.push(binary_name("mydb-cli", windows));
    out.push(binary_name("mydb", windows));
    out.push(binary_name("mydb-migrate", windows));
    out.push(binary_name("mydbdump", windows));
    out.push(asset.installer_name.clone());
    assert(out.deep_view() =~= needed_files(asset@.installer_name, windows));
    out
}

/// The first of the needed files from `at` on that is missing.
pub open spec fn first_missing(needed: Seq<Seq<char>>, regular: Seq<Seq<char>>, at: int) -> Option<Seq<char>>
    decreases needed.len() - at,
{
    if at < 0 || at >= needed.len() {
        None
    } else if !regular.contains(needed[at]) {
        Some(needed[at])
    } else {
        first_missing(needed, regular, at + 1)
    }
}

/// Whether a directory holds a whole package: `regular` are its regular files, `present` all its
/// entries.
pub open spec fn checked_source(
    dir: Seq<char>,
    installer: Seq<char>,
    windows: bool,
    regular: Seq<Seq<char>>,
    present: Seq<Seq<char>>,
) -> Result<(), Seq<char>> {
    match first_missing(needed_files(installer, windows), regular, 0) {
        Some(file) => Err("release package is missing "@ + dir + "/"@ + file),
        None => if present.contains("mydb-router"@) || present.contains("mydb-router.exe"@) {
            Err("refusing package containing legacy router binary"@)
        } else {
            Ok(())
        },
    }
}

pub fn validate_source_dir(
    dir: &str,
    asset: &ReleaseAsset,
    windows: bool,
    regular: &Vec<String>,
    present: &Vec<String>,
) -> (r: DbResult<()>)
    ensures
        error::outcome(r) == checked_source(
            dir@,
            asset@.installer_name,
            windows,
            regular.deep_view(),
            present.deep_view(),
        ),
{
    let needed = package_files(asset, windows);
    let ghost all = needed.deep_view();
    let mut i: usize = 0;
    while i < needed.len()
        invariant
            i <= needed@.len(),
            all == needed.deep_view(),
            all == needed_files(asset@.installer_name, windows),
            first_missing(all, regular.deep_view(), i as int) == first_missing(all, regular.deep_view(), 0),
        decreases needed@.len() - i,
    {
        assert(all[i as int] == needed@[i as int]@);
        if !assoc::has_name(regular, needed[i].as_str()) {
            return Err(
                DbError::new(error::cat4("release package is missing ", dir, "/", needed[i].as_str())),
            );
        }
        i += 1;
    }
    if assoc::has_name(present, "mydb-router") || assoc::has_name(present, "mydb-router.exe") {
        return Err(DbError::of("refusing package containing legacy router binary"));
    }
    Ok(())
}

/// Which directory of an unpacked archive holds the package: the archive's own, where the server
/// stands in it (`None`), else the first of its directories with the server in it.
pub open spec fn source_place(top: bool, holds_server: Seq<bool>, windows: bool) -> Result<Option<int>, Seq<char>> {
    if top {
        Ok(None)
    } else {
        match first_true(holds_server, 0) {
            Some(i) => Ok(Some(i)),
            None => Err(
                "release archive does not contain "@ + binary("mydb-server"@, windows)
                    + " and cannot be installed"@,
            ),
        }
    }
}

pub open spec fn first_true(s: Seq<bool>, at: int) -> Option<int>
    decreases s.len() - at,
{
    if at < 0 || at >= s.len() {
        None
    } else if s[at] {
        Some(at)
    } else {
        first_true(s, at + 1)
    }
}

pub fn find_source_dir(top: bool, holds_server: &Vec<bool>, windows: bool) -> (r: DbResult<Option<usize>>)
    ensures
        match (r, source_place(top, holds_server@, windows)) {
            (Ok(a), Ok(b)) => a is Some == b is Some && (a matches Some(i) ==> b == Some(i as int)),
            (Err(e), Err(m)) => e.message@ == m,
            _ => false,
        },
{
    if top {
        return Ok(None);
    }
    let mut i: usize = 0;
    while i < holds_server.len()
        invariant
            !top,
            i <= holds_server@.len(),
            first_true(holds_server@, i as int) == first_true(holds_server@, 0),
        decreases holds_server@.len() - i,
    {
        if holds_server[i] {
            return Ok(Some(i));
        }
        i += 1;
    }
    let server = binary_name("mydb-server", windows);
    Err(
        DbError::new(
            error::cat3("release archive does not contain ", server.as_str(), " and cannot be installed"),
        ),
    )
}

// ---------------------------------------------------------------------------------------------
// Laws
// ---------------------------------------------------------------------------------------------
/// A tag holds nothing but letters, digits, dots, hyphens and underscores, so that it cannot lead
/// anywhere else in an address.
pub proof fn tags_are_plain(version: Seq<char>)
    ensures
        tag_of(version) matches Ok(tag) ==> tag_chars(tag),
{
    reveal_strlit("latest");
    reveal_strlit("v");
}

/// The tag of a tag is the tag, as long as the version leaves room for the letter before it.
pub proof fn tags_are_stable(version: Seq<char>)
    requires
        text::trim(version).len() < 64,
    ensures
        tag_of(version) matches Ok(tag) ==> tag_of(tag) == Ok::<Seq<char>, Seq<char>>(tag),
{
    reveal_strlit("latest");
    reveal_strlit("v");
    if let Ok(tag) = tag_of(version) {
        tags_are_plain(version);
        assert forall|i: int| 0 <= i < tag.len() implies !text::is_white(#[trigger] tag[i]) by {
            assert(tag_char(tag[i]));
        }
        assert(text::trim_start_by(tag, text::white_fn()) == tag);
        assert(text::trim(tag) == tag);
        if tag != "latest"@ {
            assert(tag[0] == 'v');
            assert(text::fold(tag)[0] == 'v');
            assert(text::fold("latest"@)[0] == 'l');
        }
    }
}

/// An archive is accepted exactly where each of its entries stays inside.
pub proof fn accepted_archives_stay_inside(listing: Seq<char>)
    ensures
        checked_listing(listing) is Ok <==> forall|i: int|
            0 <= i < search::lines(listing).len() ==> stays_inside(#[trigger] search::lines(listing)[i]),
{
    outside_found(search::lines(listing), 0);
}

proof fn outside_found(lines: Seq<Seq<char>>, at: int)
    requires
        0 <= at <= lines.len(),
    ensures
        first_outside(lines, at) is None <==> forall|i: int|
            at <= i < lines.len() ==> stays_inside(#[trigger] lines[i]),
    decreases lines.len() - at,
{
    if at < lines.len() {
        outside_found(lines, at + 1);
        if first_outside(lines, at) is None {
            assert forall|i: int| at <= i < lines.len() implies stays_inside(#[trigger] lines[i]) by {
                if i > at {
                    assert(at + 1 <= i);
                }
            }
        }
    }
}

} // verus!
