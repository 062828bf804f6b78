//! What the buffer pool keeps and gives up.
use crate::bufferpool;
use crate::bufferpool::PoolModel;
use crate::num;
use crate::page::PageModel;
use crate::seqs;
use crate::text;
use vstd::prelude::*;

verus! {

proof fn oldest_is_least(pages: Seq<(Seq<char>, PageModel)>, best: int, at: int)
    requires
        0 <= best < at,
        best < pages.len(),
        forall|i: int|
            0 <= i < at && i < pages.len() ==> pages[best].1.header.lsn <= (
            #[trigger] pages[i]).1.header.lsn,
    ensures
        ({
            let k = bufferpool::oldest_from(pages, best, at);
            0 <= k < pages.len() && forall|i: int|
                0 <= i < pages.len() ==> pages[k].1.header.lsn <= (#[trigger] pages[i]).1.header.lsn
        }),
    decreases pages.len() - at,
{
    if at < pages.len() {
        if pages[at].1.header.lsn < pages[best].1.header.lsn {
            oldest_is_least(pages, at, at + 1);
        } else {
            oldest_is_least(pages, best, at + 1);
        }
    }
}

/// Room is made in a full pool only, and by one page: one whose log sequence number is least. The
/// other pages stay, in their order.
pub proof fn the_oldest_page_makes_room(pages: Seq<(Seq<char>, PageModel)>, max_pages: nat)
    ensures
        pages.len() < max_pages ==> bufferpool::with_room(pages, max_pages) == pages,
        pages.len() >= max_pages && pages.len() > 0 ==> exists|k: int|
            0 <= k < pages.len() && bufferpool::with_room(pages, max_pages)
                == #[trigger] pages.remove(k) && forall|i: int|
                0 <= i < pages.len() ==> pages[k].1.header.lsn <= (
                #[trigger] pages[i]).1.header.lsn,
{
    if pages.len() > 0 {
        oldest_is_least(pages, 0, 1);
        let k = bufferpool::oldest_from(pages, 0, 1);
        assert(pages.remove(k) == pages.remove(k));
    }
}

proof fn page_is_first(
    pages: Seq<(Seq<char>, PageModel)>,
    namespace: Seq<char>,
    number: u32,
    from: int,
)
    requires
        0 <= from,
    ensures
        bufferpool::page_from(pages, namespace, number, from) matches Some(i) ==> from <= i
            < pages.len() && pages[i].0 == namespace && pages[i].1.header.page_number == number
            && forall|j: int|
            from <= j < i ==> !((#[trigger] pages[j]).0 == namespace
                && pages[j].1.header.page_number == number),
        bufferpool::page_from(pages, namespace, number, from) is None ==> forall|j: int|
            from <= j < pages.len() ==> !((#[trigger] pages[j]).0 == namespace
                && pages[j].1.header.page_number == number),
    decreases pages.len() - from,
{
    if from < pages.len() {
        page_is_first(pages, namespace, number, from + 1);
    }
}

/// Holding a page changes no page of another table or number.
pub proof fn other_pages_stay(
    pages: Seq<(Seq<char>, PageModel)>,
    namespace: Seq<char>,
    page: PageModel,
    other: Seq<char>,
    number: u32,
)
    requires
        other != namespace || number != page.header.page_number,
    ensures
        bufferpool::page_of(bufferpool::with_page(pages, namespace, page), other, number)
            == bufferpool::page_of(pages, other, number),
        bufferpool::page_of(
            bufferpool::with_page(pages, namespace, page),
            namespace,
            page.header.page_number,
        ) == Some(page),
{
    let after = bufferpool::with_page(pages, namespace, page);
    let n = page.header.page_number;
    page_is_first(pages, namespace, n, 0);
    page_is_first(pages, other, number, 0);
    page_is_first(after, namespace, n, 0);
    page_is_first(after, other, number, 0);
    let k = match bufferpool::page_from(pages, namespace, n, 0) {
        Some(i) => i,
        None => pages.len() as int,
    };
    assert(after[k] == (namespace, page));
    let f = bufferpool::page_from(after, namespace, n, 0)->0;
    if f < k {
        assert(after[f] == pages[f]);
    }
    match bufferpool::page_from(pages, other, number, 0) {
        Some(i) => {
            assert(after[i] == pages[i]);
            let j = bufferpool::page_from(after, other, number, 0)->0;
            if j < i {
                assert(after[j] == pages[j]);
            }
        },
        None => {
            match bufferpool::page_from(after, other, number, 0) {
                Some(j) => {
                    assert(j != k);
                    assert(after[j] == pages[j]);
                },
                None => {},
            }
        },
    }
}

/// Marking a page says whether it is dirty and changes nothing else.
pub proof fn marking_changes_the_mark(p: PageModel, dirty: bool)
    ensures
        bufferpool::marked(p, dirty).header.is_dirty == dirty,
        bufferpool::marked(p, p.header.is_dirty) == p,
        bufferpool::marked(p, dirty).header.page_number == p.header.page_number,
        bufferpool::marked(p, dirty).header.lsn == p.header.lsn,
        bufferpool::marked(bufferpool::marked(p, dirty), p.header.is_dirty) == p,
{
}

/// The pages to be written are the dirty ones, and none is left once the marks are cleared.
pub proof fn dirty_pages_are_written(pages: Seq<(Seq<char>, PageModel)>, e: (Seq<char>, PageModel))
    ensures
        pages.filter(bufferpool::dirty_fn()).contains(e) <==> pages.contains(e)
            && e.1.header.is_dirty,
        !pages.map_values(
            |x: (Seq<char>, PageModel)| (x.0, bufferpool::marked(x.1, false)),
        ).filter(bufferpool::dirty_fn()).contains(e),
{
    seqs::filter_holds(pages, bufferpool::dirty_fn(), e);
    let clean = pages.map_values(
        |x: (Seq<char>, PageModel)| (x.0, bufferpool::marked(x.1, false)),
    );
    seqs::filter_holds(clean, bufferpool::dirty_fn(), e);
    if clean.contains(e) {
        let i = clean.index_of(e);
        assert(clean[i] == (pages[i].0, bufferpool::marked(pages[i].1, false)));
    }
}

proof fn untrimmed_digits(n: nat, unit: Seq<char>)
    requires
        unit.len() <= 1,
        unit.len() == 1 ==> text::spec_upper(unit[0]) == 'K' || text::spec_upper(unit[0]) == 'M'
            || text::spec_upper(unit[0]) == 'G',
    ensures
        text::trim(num::decimal(n) + unit) == num::decimal(n) + unit,
        text::upper(num::decimal(n) + unit).len() == num::decimal(n).len() + unit.len(),
        unit.len() == 1 ==> text::upper(num::decimal(n) + unit).last() == text::spec_upper(unit[0])
            && text::upper(num::decimal(n) + unit).drop_last() == num::decimal(n),
        unit.len() == 0 ==> text::upper(num::decimal(n) + unit) == num::decimal(n)
            && bufferpool::unit_of(num::decimal(n).last()) == 1,
{
    num::decimal_digits(n);
    let d = num::decimal(n);
    let s = d + unit;
    let u = text::upper(s);
    assert(text::is_digit(d[0]));
    assert(text::is_digit(d[d.len() - 1]));
    assert(s[0] == d[0]);
    assert(!text::is_white(s[0]));
    assert(!text::is_white(s.last())) by {
        if unit.len() == 1 {
            assert(s.last() == unit[0]);
        } else {
            assert(s.last() == d.last());
        }
    }
    assert(text::trim_start_by(s, text::white_fn()) == s);
    assert forall|i: int| 0 <= i < d.len() implies u[i] == #[trigger] d[i] by {
        assert(text::is_digit(d[i]));
        assert(s[i] == d[i]);
    }
    if unit.len() == 1 {
        assert(u.last() == text::spec_upper(s.last()));
        assert(u.drop_last() =~= d);
    } else {
        assert(u =~= d);
    }
}

/// A size is a number of bytes, or of the unit that stands behind it: K, M or G, large or small.
pub proof fn sizes_are_numbers_of_units(n: nat, unit: char)
    requires
        n <= usize::MAX,
    ensures
        bufferpool::size_named(num::decimal(n)) == n,
        unit == 'k' || unit == 'K' ==> bufferpool::size_named(num::decimal(n).push(unit)) == n * 1024,
        unit == 'm' || unit == 'M' ==> bufferpool::size_named(num::decimal(n).push(unit)) == n
            * 1048576,
        unit == 'g' || unit == 'G' ==> bufferpool::size_named(num::decimal(n).push(unit)) == n
            * 1073741824,
{
    num::parsed_decimal(n, usize::MAX as nat);
    num::decimal_digits(n);
    assert(num::decimal(n) + Seq::<char>::empty() =~= num::decimal(n));
    untrimmed_digits(n, Seq::empty());
    if unit == 'k' || unit == 'K' || unit == 'm' || unit == 'M' || unit == 'g' || unit == 'G' {
        assert(num::decimal(n) + seq![unit] =~= num::decimal(n).push(unit));
        untrimmed_digits(n, seq![unit]);
    }
}

/// Pages are held one after the other.
pub proof fn pages_are_held_in_order(pool: PoolModel, namespace: Seq<char>, pages: Seq<PageModel>, page: PageModel)
    ensures
        bufferpool::holding_all(pool, namespace, Seq::empty()) == pool,
        bufferpool::page_of(
            bufferpool::holding_all(pool, namespace, pages.push(page)).pages,
            namespace,
            page.header.page_number,
        ) == Some(page),
        bufferpool::holding_all(pool, namespace, pages.push(page)).max_pages == pool.max_pages,
{
    let more = pages.push(page);
    assert(more.drop_last() =~= pages);
    let before = bufferpool::holding_all(pool, namespace, pages);
    bufferpool::held_page_is_found(before, namespace, page);
    limit_stays(pool, namespace, pages);
}

proof fn limit_stays(pool: PoolModel, namespace: Seq<char>, pages: Seq<PageModel>)
    ensures
        bufferpool::holding_all(pool, namespace, pages).max_pages == pool.max_pages,
    decreases pages.len(),
{
    if pages.len() > 0 {
        limit_stays(pool, namespace, pages.drop_last());
    }
}

} // verus!
