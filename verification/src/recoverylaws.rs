//! What recovery finds in folders, and where an index looks.
use crate::index;
use crate::recovery;
use crate::recovery::{FolderContents, FolderEntry};
use crate::row::RowModel;
use crate::search;
use crate::text;
use vstd::prelude::*;

verus! {

/// Recovery from a drop leaves a table that the catalog names with its rows, from the backup where
/// they are nowhere else, and never replaces rows that are there; of one that the catalog does not
/// name it clears the backup.
pub proof fn a_named_table_comes_back<C>(f: FolderContents<C>, content: C)
    ensures
        ({
            let back = recovery::drop_recovery(true, recovery::folders_of(f));
            let after = recovery::folder_after(f, back, content, back.len() as int);
            &&& f.active is Some ==> after == f
            &&& f.active is None ==> after.active == f.backup
            &&& f.active is None ==> after.backup is None
            &&& after.staging == f.staging
        }),
        ({
            let gone = recovery::drop_recovery(false, recovery::folders_of(f));
            let after = recovery::folder_after(f, gone, content, gone.len() as int);
            &&& after.backup is None
            &&& after.active == f.active
            &&& after.staging == f.staging
        }),
{
    reveal_with_fuel(recovery::folder_after, 2);
}

/// A marker is named by its prefix, something, and `.json`.
pub proof fn markers_are_told_by_their_names(prefix: Seq<char>, middle: Seq<char>, name: Seq<char>)
    ensures
        recovery::is_marker(prefix + middle + ".json"@, prefix),
        recovery::is_marker(name, prefix) ==> name.len() >= prefix.len() && name.len() >= 5
            && forall|i: int| 0 <= i < prefix.len() ==> name[i] == prefix[i],
        recovery::is_marker(name, prefix) ==> name.skip(name.len() - 5) == ".json"@,
{
    reveal_strlit(".json");
    let whole = prefix + middle + ".json"@;
    assert(whole.take(prefix.len() as int) =~= prefix);
    assert(whole.skip(whole.len() - 5) =~= ".json"@);
    if recovery::is_marker(name, prefix) {
        assert forall|i: int| 0 <= i < prefix.len() implies name[i] == prefix[i] by {
            assert(name.take(prefix.len() as int)[i] == name[i]);
        }
    }
}

/// Links and folders never count as pages; a file counts by its name.
pub proof fn pages_are_files(e: FolderEntry, middle: Seq<char>)
    ensures
        recovery::page_entry(e) ==> e.is_file && !e.is_symlink,
        e.is_file && !e.is_symlink && e.name@ == "page_"@ + middle + ".bin"@ ==> recovery::page_entry(
            e,
        ),
        e.is_file && !e.is_symlink && e.name@ == "pages.dat"@ ==> recovery::page_entry(e),
        recovery::page_entry(e) ==> e.name@.len() >= 5 && e.name@.take(4) == seq!['p', 'a', 'g', 'e'],
{
    reveal_strlit("page_");
    reveal_strlit(".bin");
    reveal_strlit("pages.dat");
    let whole = "page_"@ + middle + ".bin"@;
    assert(whole.take(5) =~= "page_"@);
    assert(whole.skip(whole.len() - 4) =~= ".bin"@);
    if recovery::page_entry(e) {
        let name = e.name@;
        if search::starts_with(name, "page_"@) {
            assert forall|i: int| 0 <= i < 4 implies name[i] == "page_"@[i] by {
                assert(name.take(5)[i] == name[i]);
            }
        }
        assert(name.take(4) =~= seq!['p', 'a', 'g', 'e']);
    }
}

proof fn whole_part(s: Seq<char>, at: int)
    requires
        0 <= at <= s.len(),
        forall|i: int| 0 <= i < s.len() ==> #[trigger] s[i] != '/',
    ensures
        search::split_by(s, text::char_fn('/'), 0, at) == seq![s],
    decreases s.len() - at,
{
    if at < s.len() {
        assert(s[at] != '/');
        whole_part(s, at + 1);
    } else {
        assert(s.subrange(0, s.len() as int) =~= s);
    }
}

proof fn part_behind(a: Seq<char>, b: Seq<char>, at: int)
    requires
        a.len() + 1 <= at <= a.len() + 1 + b.len(),
        forall|i: int| 0 <= i < b.len() ==> #[trigger] b[i] != '/',
    ensures
        search::split_by(a + seq!['/'] + b, text::char_fn('/'), a.len() as int + 1, at) == seq![b],
    decreases a.len() + 1 + b.len() - at,
{
    let s = a + seq!['/'] + b;
    if at < s.len() {
        assert(s[at] == b[at - a.len() - 1]);
        part_behind(a, b, at + 1);
    } else {
        assert(s.subrange(a.len() as int + 1, s.len() as int) =~= b);
    }
}

proof fn two_parts(a: Seq<char>, b: Seq<char>, at: int)
    requires
        0 <= at <= a.len(),
        forall|i: int| 0 <= i < a.len() ==> #[trigger] a[i] != '/',
        forall|i: int| 0 <= i < b.len() ==> #[trigger] b[i] != '/',
    ensures
        search::split_by(a + seq!['/'] + b, text::char_fn('/'), 0, at) == seq![a, b],
    decreases a.len() - at,
{
    let s = a + seq!['/'] + b;
    if at < a.len() {
        assert(s[at] == a[at]);
        two_parts(a, b, at + 1);
    } else {
        assert(s[at] == '/');
        part_behind(a, b, at + 1);
        assert(s.subrange(0, at) =~= a);
        assert(seq![a] + seq![b] =~= seq![a, b]);
    }
}

/// A recovery follows a path of its own prefix that stays in one folder, and none that leads into
/// another.
pub proof fn safe_paths_stay_in_their_folder(prefix: Seq<char>, a: Seq<char>, b: Seq<char>)
    requires
        forall|i: int| 0 <= i < a.len() ==> #[trigger] a[i] != '/',
        forall|i: int| 0 <= i < b.len() ==> #[trigger] b[i] != '/',
        a.len() > 1,
        b.len() > 1,
    ensures
        recovery::safe_part(prefix, a) <==> search::starts_with(a, prefix),
        !recovery::safe_part(prefix, a + seq!['/'] + b),
{
    whole_part(a, 0);
    two_parts(a, b, 0);
    reveal_with_fuel(recovery::parts_upto, 3);
    assert(a != seq!['.'] && b != seq!['.']);
    assert(seq![a][0] == a);
    assert(seq![a, b][0] == a && seq![a, b][1] == b);
}

/// The places of a value are those of the rows that have it, each once and in order.
pub proof fn places_are_those_of_the_rows(rows: Seq<RowModel>, c: Seq<char>, v: Seq<u8>)
    requires
        rows.len() <= usize::MAX,
    ensures
        forall|i: int|
            0 <= i < rows.len() ==> (index::holding(rows, c, v).contains(i as usize) <==> (
            #[trigger] rows[i]).present(c) == Some(v)),
        forall|k: int|
            0 <= k < index::holding(rows, c, v).len() ==> (#[trigger] index::holding(rows, c, v)[k])
                < rows.len(),
        forall|j: int, k: int|
            0 <= j < k < index::holding(rows, c, v).len() ==> (#[trigger] index::holding(rows, c, v)[j])
                < (#[trigger] index::holding(rows, c, v)[k]),
    decreases rows.len(),
{
    if rows.len() > 0 {
        let t = rows.drop_last();
        places_are_those_of_the_rows(t, c, v);
        let rest = index::holding(t, c, v);
        let all = index::holding(rows, c, v);
        let n = (rows.len() - 1) as usize;
        assert forall|i: int| 0 <= i < rows.len() implies (all.contains(i as usize) <==> (
        #[trigger] rows[i]).present(c) == Some(v)) by {
            if i < t.len() {
                assert(t[i] == rows[i]);
                if rest.contains(i as usize) {
                    let k = choose|k: int| 0 <= k < rest.len() && rest[k] == i as usize;
                    assert(all[k] == i as usize);
                }
                if all.contains(i as usize) {
                    let k = choose|k: int| 0 <= k < all.len() && all[k] == i as usize;
                    assert(k < rest.len());
                    assert(rest[k] == i as usize);
                }
            } else {
                if rows[i].present(c) == Some(v) {
                    assert(all[rest.len() as int] == n);
                } else if all.contains(n) {
                    let k = choose|k: int| 0 <= k < all.len() && all[k] == n;
                    assert(rest[k] < t.len());
                }
            }
        }
    }
}

/// The pages of a value are those with a row that has it.
pub proof fn pages_are_those_with_the_value(pages: Seq<Seq<RowModel>>, c: Seq<char>, v: Seq<u8>)
    requires
        pages.len() <= usize::MAX,
    ensures
        forall|i: int, j: int|
            0 <= i < pages.len() && 0 <= j < pages[i].len() && (#[trigger] pages[i][j]).present(c)
                == Some(v) ==> index::paged(pages, c, v).contains(i as usize),
        forall|k: int|
            0 <= k < index::paged(pages, c, v).len() ==> (#[trigger] index::paged(pages, c, v)[k])
                < pages.len() && exists|j: int|
                0 <= j < pages[index::paged(pages, c, v)[k] as int].len() && (
                #[trigger] pages[index::paged(pages, c, v)[k] as int][j]).present(c) == Some(v),
    decreases pages.len(),
{
    if pages.len() > 0 {
        let t = pages.drop_last();
        pages_are_those_with_the_value(t, c, v);
        let rest = index::paged(t, c, v);
        let all = index::paged(pages, c, v);
        let n = pages.len() - 1;
        assert forall|i: int, j: int|
            0 <= i < pages.len() && 0 <= j < pages[i].len() && (#[trigger] pages[i][j]).present(c)
                == Some(v) implies all.contains(i as usize) by {
            if i < n {
                assert(t[i][j].present(c) == Some(v));
                let k = choose|k: int| 0 <= k < rest.len() && rest[k] == i as usize;
                assert(all[k] == i as usize);
            } else {
                assert(index::any_holds(pages.last(), c, v));
                assert(all[rest.len() as int] == n as usize);
            }
        }
        assert forall|k: int| 0 <= k < all.len() implies (#[trigger] all[k]) < pages.len() && exists|
            j: int,
        |
            0 <= j < pages[all[k] as int].len() && (#[trigger] pages[all[k] as int][j]).present(c)
                == Some(v) by {
            if k < rest.len() {
                assert(all[k] == rest[k]);
                assert(t[rest[k] as int] == pages[rest[k] as int]);
            } else {
                assert(all[k] == n as usize);
                let j = choose|j: int|
                    0 <= j < pages.last().len() && (#[trigger] pages.last()[j]).present(c) == Some(v);
                assert(pages[all[k] as int][j].present(c) == Some(v));
            }
        }
    }
}

} // verus!
