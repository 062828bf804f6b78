//! The buffer pool: pages by table and number, the oldest making room for new ones.
use crate::error;
use crate::num;
use crate::page::{Page, PageHeader, PageModel};
use crate::text;
use vstd::prelude::*;

verus! {

// ---------------------------------------------------------------------------------------------
// Sizes
// ---------------------------------------------------------------------------------------------
/// The bytes that a unit stands for.
pub open spec fn unit_of(c: char) -> nat {
    if c == 'G' {
        1073741824
    } else if c == 'M' {
        1048576
    } else if c == 'K' {
        1024
    } else {
        1
    }
}

pub open spec fn number_or_one(s: Seq<char>) -> nat {
    match num::parsed(s, usize::MAX as nat) {
        Some(n) => n,
        None => 1,
    }
}

/// The bytes that a size such as `128M` names. A number that cannot be read counts as one.
pub open spec fn size_named(size: Seq<char>) -> nat {
    let s = text::upper(text::trim(size));
    if s.len() > 0 && unit_of(s.last()) > 1 {
        number_or_one(s.drop_last()) * unit_of(s.last())
    } else {
        number_or_one(s)
    }
}

/// The bytes that a size names, where they can be counted.
pub fn checked_size(size: &str) -> (r: Option<usize>)
    ensures
        r is Some == (size_named(size@) <= usize::MAX),
        r matches Some(n) ==> n == size_named(size@),
{
    let trimmed = text::trim_text(size);
    let upper = text::to_upper(trimmed.as_str());
    let c = text::chars_of(upper.as_str());
    let n: usize = c.len();
    let unit: u64 = if n == 0 {
        1
    } else if c[n - 1] == 'G' {
        1073741824
    } else if c[n - 1] == 'M' {
        1048576
    } else if c[n - 1] == 'K' {
        1024
    } else {
        1
    };
    let digits = if unit > 1 {
        let d = text::copy_chars(&c, 0, n - 1);
        assert(d@ =~= c@.drop_last());
        d
    } else {
        c
    };
    let count: u64 = match num::parse_up_to(&digits, usize::MAX as u64) {
        Some(k) => k,
        None => 1,
    };
    let product: u128 = (count as u128) * (unit as u128);
    assert(product == count * unit);
    if product <= usize::MAX as u128 {
        Some(product as usize)
    } else {
        None
    }
}

// ---------------------------------------------------------------------------------------------
// The pool
// ---------------------------------------------------------------------------------------------
pub struct BufferPool {
    pages: Vec<(String, Page)>,
    max_pages: usize,
}

/// The pages held, each with the table that it belongs to, and how many may be held.
#[verifier::ext_equal]
pub struct PoolModel {
    pub pages: Seq<(Seq<char>, PageModel)>,
    pub max_pages: nat,
}

impl View for BufferPool {
    type V = PoolModel;

    closed spec fn view(&self) -> PoolModel {
        PoolModel { pages: self.pages.deep_view(), max_pages: self.max_pages as nat }
    }
}

/// The first place of a page from `from` on.
pub open spec fn page_from(
    pages: Seq<(Seq<char>, PageModel)>,
    namespace: Seq<char>,
    number: u32,
    from: int,
) -> Option<int>
    decreases pages.len() - from,
{
    if from < 0 || from >= pages.len() {
        None
    } else if pages[from].0 == namespace && pages[from].1.header.page_number == number {
        Some(from)
    } else {
        page_from(pages, namespace, number, from + 1)
    }
}

pub open spec fn page_of(
    pages: Seq<(Seq<char>, PageModel)>,
    namespace: Seq<char>,
    number: u32,
) -> Option<PageModel> {
    match page_from(pages, namespace, number, 0) {
        Some(i) => Some(pages[i].1),
        None => None,
    }
}

/// The place of the page with the least log sequence number, the first of them.
pub open spec fn oldest_from(pages: Seq<(Seq<char>, PageModel)>, best: int, at: int) -> int
    decreases pages.len() - at,
{
    if at < 0 || at >= pages.len() {
        best
    } else if pages[at].1.header.lsn < pages[best].1.header.lsn {
        oldest_from(pages, at, at + 1)
    } else {
        oldest_from(pages, best, at + 1)
    }
}

pub open spec fn with_room(pages: Seq<(Seq<char>, PageModel)>, max_pages: nat) -> Seq<
    (Seq<char>, PageModel),
> {
    if pages.len() >= max_pages && pages.len() > 0 {
        pages.remove(oldest_from(pages, 0, 1))
    } else {
        pages
    }
}

pub open spec fn with_page(
    pages: Seq<(Seq<char>, PageModel)>,
    namespace: Seq<char>,
    page: PageModel,
) -> Seq<(Seq<char>, PageModel)> {
    match page_from(pages, namespace, page.header.page_number, 0) {
        Some(i) => pages.update(i, (namespace, page)),
        None => pages.push((namespace, page)),
    }
}

pub open spec fn marked(p: PageModel, dirty: bool) -> PageModel {
    PageModel { header: PageHeader { is_dirty: dirty, ..p.header }, ..p }
}

pub open spec fn dirty_fn() -> spec_fn((Seq<char>, PageModel)) -> bool {
    |e: (Seq<char>, PageModel)| e.1.header.is_dirty
}

/// A pool that holds one more page of a table.
pub open spec fn holding(pool: PoolModel, namespace: Seq<char>, page: PageModel) -> PoolModel {
    PoolModel {
        pages: with_page(with_room(pool.pages, pool.max_pages), namespace, page),
        ..pool
    }
}

/// A pool that has taken up pages of a table, one after the other.
pub open spec fn holding_all(pool: PoolModel, namespace: Seq<char>, pages: Seq<PageModel>) -> PoolModel
    decreases pages.len(),
{
    if pages.len() == 0 {
        pool
    } else {
        holding(holding_all(pool, namespace, pages.drop_last()), namespace, pages.last())
    }
}

/// The namespace of a table's pages.
pub fn page_namespace(database: &str, table: &str) -> (r: String)
    ensures
        r@ == database@ + "/"@ + table@,
{
    error::cat3(database, "/", table)
}

impl BufferPool {
    /// A pool of as many pages of a size as fit into the bytes that `buffer_pool_size` names.
    pub fn new(page_size: usize, buffer_pool_size: &str) -> (r: Self)
        requires
            page_size > 0,
            size_named(buffer_pool_size@) <= usize::MAX,
        ensures
            r@.pages == Seq::<(Seq<char>, PageModel)>::empty(),
            r@.max_pages == size_named(buffer_pool_size@) / (page_size as nat),
    {
        let bytes: usize = Self::parse_size(buffer_pool_size);
        let r = BufferPool { pages: Vec::new(), max_pages: bytes / page_size };
        assert(r.pages.deep_view() =~= Seq::empty());
        r
    }

    pub fn parse_size(size: &str) -> (r: usize)
        requires
            size_named(size@) <= usize::MAX,
        ensures
            r == size_named(size@),
    {
        match checked_size(size) {
            Some(n) => n,
            None => 0,
        }
    }

    fn find(&self, namespace: &str, number: u32) -> (r: Option<usize>)
        ensures
            r is Some == page_from(self@.pages, namespace@, number, 0) is Some,
            r matches Some(i) ==> i < self.pages@.len() && page_from(
                self@.pages,
                namespace@,
                number,
                0,
            ) == Some(i as int),
    {
        let ghost all = self@.pages;
        let mut i: usize = 0;
        while i < self.pages.len()
            invariant
                i <= self.pages@.len(),
                all == self.pages.deep_view(),
                page_from(all, namespace@, number, i as int) == page_from(
                    all,
                    namespace@,
                    number,
                    0,
                ),
            decreases self.pages@.len() - i,
        {
            assert(all[i as int] == (self.pages@[i as int].0@, self.pages@[i as int].1@));
            if self.pages[i].1.header.page_number == number && text::text_equal(
                self.pages[i].0.as_str(),
                namespace,
            ) {
                return Some(i);
            }
            i += 1;
        }
        None
    }

    pub fn get_page(&self, page_number: u32) -> (r: Option<Page>)
        ensures
            r.deep_view() == page_of(self@.pages, ""@, page_number),
    {
        self.get_table_page("", page_number)
    }

    pub fn insert_page(&mut self, page: Page)
        ensures
            final(self)@ == (PoolModel {
                pages: with_page(with_room(old(self)@.pages, old(self)@.max_pages), ""@, page@),
                ..old(self)@
            }),
    {
        self.insert_table_page("", page);
    }

    pub fn get_table_page(&self, namespace: &str, page_number: u32) -> (r: Option<Page>)
        ensures
            r.deep_view() == page_of(self@.pages, namespace@, page_number),
    {
        match self.find(namespace, page_number) {
            Some(i) => {
                assert(self@.pages[i as int].1 == self.pages@[i as int].1@);
                Some(self.pages[i].1.clone())
            },
            None => None,
        }
    }

    /// Holds a page. In a full pool the page with the least log sequence number makes room.
    pub fn insert_table_page(&mut self, namespace: &str, page: Page)
        ensures
            final(self)@ == (PoolModel {
                pages: with_page(
                    with_room(old(self)@.pages, old(self)@.max_pages),
                    namespace@,
                    page@,
                ),
                ..old(self)@
            }),
    {
        let ghost before = self.pages.deep_view();
        if self.pages.len() >= self.max_pages && self.pages.len() > 0 {
            let mut best: usize = 0;
            let mut at: usize = 1;
            while at < self.pages.len()
                invariant
                    0 < at <= self.pages@.len(),
                    best < self.pages@.len(),
                    before == self.pages.deep_view(),
                    oldest_from(before, best as int, at as int) == oldest_from(before, 0, 1),
                decreases self.pages@.len() - at,
            {
                assert(before[at as int].1 == self.pages@[at as int].1@);
                assert(before[best as int].1 == self.pages@[best as int].1@);
                if self.pages[at].1.header.lsn < self.pages[best].1.header.lsn {
                    best = at;
                }
                at += 1;
            }
            self.pages.remove(best);
            assert(self.pages.deep_view() =~= before.remove(best as int));
        }
        let ghost room = self.pages.deep_view();
        let ghost model = page@;
        let name = text::copy_text(namespace);
        match self.find(namespace, page.header.page_number) {
            Some(i) => {
                self.pages.set(i, (name, page));
                assert(self.pages.deep_view() =~= room.update(i as int, (namespace@, model)));
            },
            None => {
                self.pages.push((name, page));
                assert(self.pages.deep_view() =~= room.push((namespace@, model)));
            },
        }
    }

    /// Holds the pages of a table that were read or written, one after the other.
    pub fn insert_table_pages(&mut self, namespace: &str, pages: &[Page])
        ensures
            final(self)@ == holding_all(old(self)@, namespace@, pages.deep_view()),
    {
        let ghost all = pages.deep_view();
        let ghost before = self@;
        let mut i: usize = 0;
        assert(all.take(0) =~= Seq::empty());
        while i < pages.len()
            invariant
                i <= pages@.len(),
                all == pages.deep_view(),
                self@ == holding_all(before, namespace@, all.take(i as int)),
            decreases pages@.len() - i,
        {
            let copy = pages[i].clone();
            self.insert_table_page(namespace, copy);
            proof {
                assert(all.take(i + 1).drop_last() =~= all.take(i as int));
                assert(all.take(i + 1).last() == pages@[i as int]@);
            }
            i += 1;
        }
        assert(all.take(i as int) =~= all);
    }

    /// Marks a page without a table as changed.
    pub fn mark_dirty(&mut self, page_number: u32)
        ensures
            final(self)@ == (match page_from(old(self)@.pages, ""@, page_number, 0) {
                None => old(self)@,
                Some(i) => PoolModel {
                    pages: old(self)@.pages.update(
                        i,
                        (old(self)@.pages[i].0, marked(old(self)@.pages[i].1, true)),
                    ),
                    ..old(self)@
                },
            }),
    {
        let ghost before = self.pages.deep_view();
        match self.find("", page_number) {
            None => {},
            Some(i) => {
                self.pages[i].1.header.is_dirty = true;
                assert(self.pages.deep_view() =~= before.update(
                    i as int,
                    (before[i as int].0, marked(before[i as int].1, true)),
                ));
            },
        }
    }

    pub fn get_all_dirty_pages(&self) -> (r: Vec<Page>)
        ensures
            r.deep_view() == self@.pages.filter(dirty_fn()).map_values(
                |e: (Seq<char>, PageModel)| e.1,
            ),
    {
        let ghost all = self@.pages;
        let ghost only = |e: (Seq<char>, PageModel)| e.1;
        let mut out: Vec<Page> = Vec::new();
        let mut i: usize = 0;
        assert(all.take(0).filter(dirty_fn()) =~= Seq::empty()) by {
            reveal(Seq::filter);
        }
        assert(out.deep_view() =~= all.take(0).filter(dirty_fn()).map_values(only));
        while i < self.pages.len()
            invariant
                i <= self.pages@.len(),
                all == self.pages.deep_view(),
                only == (|e: (Seq<char>, PageModel)| e.1),
                out.deep_view() == all.take(i as int).filter(dirty_fn()).map_values(only),
            decreases self.pages@.len() - i,
        {
            assert(all[i as int] == (self.pages@[i as int].0@, self.pages@[i as int].1@));
            let ghost before = out.deep_view();
            proof {
                crate::seqs::filter_step(all, i as int, dirty_fn());
            }
            if self.pages[i].1.header.is_dirty {
                let copy = self.pages[i].1.clone();
                out.push(copy);
                assert(out.deep_view() =~= before.push(all[i as int].1));
            }
            assert(out.deep_view() =~= all.take(i + 1).filter(dirty_fn()).map_values(only));
            i += 1;
        }
        assert(all.take(i as int) =~= all);
        out
    }

    /// The changed pages, each with its namespace.
    pub fn dirty_entries(&self) -> (r: Vec<(String, Page)>)
        ensures
            r.deep_view() == self@.pages.filter(dirty_fn()),
    {
        let ghost all = self@.pages;
        let mut out: Vec<(String, Page)> = Vec::new();
        let mut i: usize = 0;
        assert(all.take(0).filter(dirty_fn()) =~= Seq::empty()) by {
            reveal(Seq::filter);
        }
        assert(out.deep_view() =~= all.take(0).filter(dirty_fn()));
        while i < self.pages.len()
            invariant
                i <= self.pages@.len(),
                all == self.pages.deep_view(),
                out.deep_view() == all.take(i as int).filter(dirty_fn()),
            decreases self.pages@.len() - i,
        {
            assert(all[i as int] == (self.pages@[i as int].0@, self.pages@[i as int].1@));
            let ghost before = out.deep_view();
            proof {
                crate::seqs::filter_step(all, i as int, dirty_fn());
            }
            if self.pages[i].1.header.is_dirty {
                let copy = self.pages[i].1.clone();
                out.push((text::copy_text(self.pages[i].0.as_str()), copy));
                assert(out.deep_view() =~= before.push(all[i as int]));
            }
            assert(out.deep_view() =~= all.take(i + 1).filter(dirty_fn()));
            i += 1;
        }
        assert(all.take(i as int) =~= all);
        out
    }

    pub fn clear_dirty_flags(&mut self)
        ensures
            final(self)@ == (PoolModel {
                pages: old(self)@.pages.map_values(
                    |e: (Seq<char>, PageModel)| (e.0, marked(e.1, false)),
                ),
                ..old(self)@
            }),
    {
        let ghost before = self.pages.deep_view();
        let ghost target = before.map_values(
            |e: (Seq<char>, PageModel)| (e.0, marked(e.1, false)),
        );
        let ghost limit = self.max_pages;
        let mut i: usize = 0;
        while i < self.pages.len()
            invariant
                i <= self.pages@.len(),
                self.max_pages == limit,
                before.len() == self.pages@.len(),
                target == before.map_values(
                    |e: (Seq<char>, PageModel)| (e.0, marked(e.1, false)),
                ),
                forall|j: int| 0 <= j < i ==> (#[trigger] self.pages.deep_view()[j]) == target[j],
                forall|j: int|
                    i <= j < before.len() ==> (#[trigger] self.pages.deep_view()[j]) == before[j],
            decreases self.pages@.len() - i,
        {
            let ghost prior = self.pages.deep_view();
            assert(prior[i as int] == before[i as int]);
            assert(prior[i as int] == (self.pages@[i as int].0@, self.pages@[i as int].1@));
            self.pages[i].1.header.is_dirty = false;
            assert(self.pages.deep_view() =~= prior.update(i as int, target[i as int]));
            i += 1;
        }
        assert(self.pages.deep_view() =~= target);
    }

    /// The pages themselves are written elsewhere.
    pub fn flush_all(&mut self)
        ensures
            final(self)@ == (PoolModel {
                pages: old(self)@.pages.map_values(
                    |e: (Seq<char>, PageModel)| (e.0, marked(e.1, false)),
                ),
                ..old(self)@
            }),
    {
        self.clear_dirty_flags();
    }

    pub fn page_count(&self) -> (r: usize)
        ensures
            r == self@.pages.len(),
    {
        self.pages.len()
    }

    pub fn clear(&mut self)
        ensures
            final(self)@ == (PoolModel { pages: Seq::empty(), ..old(self)@ }),
    {
        self.pages = Vec::new();
        assert(self.pages.deep_view() =~= Seq::empty());
    }
}

/// The background task that cleans changed pages.
pub struct Checkpointer {
    pub interval_ms: u64,
}

impl Checkpointer {
    pub fn new(interval_ms: u64) -> (r: Self)
        ensures
            r.interval_ms == interval_ms,
    {
        Checkpointer { interval_ms: interval_ms }
    }

    /// One pass over a pool: the pages to write, each with the namespace that it belongs to. In
    /// the pool they are clean from now on.
    pub fn checkpoint(&self, pool: &mut BufferPool) -> (r: Vec<(String, Page)>)
        ensures
            r.deep_view() == old(pool)@.pages.filter(dirty_fn()),
            final(pool)@ == (PoolModel {
                pages: old(pool)@.pages.map_values(
                    |e: (Seq<char>, PageModel)| (e.0, marked(e.1, false)),
                ),
                ..old(pool)@
            }),
            final(pool)@.pages.filter(dirty_fn()) == Seq::<(Seq<char>, PageModel)>::empty(),
    {
        let dirty = pool.dirty_entries();
        pool.clear_dirty_flags();
        proof {
            none_is_dirty(pool@.pages);
        }
        dirty
    }
}

proof fn none_is_dirty(pages: Seq<(Seq<char>, PageModel)>)
    requires
        forall|i: int| 0 <= i < pages.len() ==> !(#[trigger] pages[i]).1.header.is_dirty,
    ensures
        pages.filter(dirty_fn()) == Seq::<(Seq<char>, PageModel)>::empty(),
    decreases pages.len(),
{
    reveal(Seq::filter);
    if pages.len() > 0 {
        let rest = pages.drop_last();
        assert forall|i: int| 0 <= i < rest.len() implies !(
        #[trigger] rest[i]).1.header.is_dirty by {
            assert(rest[i] == pages[i]);
        }
        none_is_dirty(rest);
        assert(!pages.last().1.header.is_dirty);
    }
}

// ---------------------------------------------------------------------------------------------
// Laws
// ---------------------------------------------------------------------------------------------
pub proof fn page_found(
    pages: Seq<(Seq<char>, PageModel)>,
    namespace: Seq<char>,
    number: u32,
    from: int,
)
    requires
        0 <= from,
    ensures
        page_from(pages, namespace, number, from) matches Some(i) ==> from <= i < pages.len()
            && pages[i].0 == namespace && pages[i].1.header.page_number == number,
        page_from(pages, namespace, number, from) is None ==> forall|j: int|
            from <= j < pages.len() ==> !((#[trigger] pages[j]).0 == namespace
                && pages[j].1.header.page_number == number),
    decreases pages.len() - from,
{
    if from < pages.len() {
        page_found(pages, namespace, number, from + 1);
    }
}

proof fn first_page(
    pages: Seq<(Seq<char>, PageModel)>,
    namespace: Seq<char>,
    number: u32,
    from: int,
)
    requires
        0 <= from,
    ensures
        page_from(pages, namespace, number, from) matches Some(i) ==> forall|j: int|
            from <= j < i ==> !((#[trigger] pages[j]).0 == namespace
                && pages[j].1.header.page_number == number),
    decreases pages.len() - from,
{
    if from < pages.len() {
        first_page(pages, namespace, number, from + 1);
    }
}

/// A page that was just held is found.
pub proof fn held_page_is_found(pool: PoolModel, namespace: Seq<char>, page: PageModel)
    ensures
        page_of(
            with_page(with_room(pool.pages, pool.max_pages), namespace, page),
            namespace,
            page.header.page_number,
        ) == Some(page),
{
    let room = with_room(pool.pages, pool.max_pages);
    let after = with_page(room, namespace, page);
    let n = page.header.page_number;
    page_found(room, namespace, n, 0);
    first_page(room, namespace, n, 0);
    page_found(after, namespace, n, 0);
    first_page(after, namespace, n, 0);
    let k = match page_from(room, namespace, n, 0) {
        Some(i) => i,
        None => room.len() as int,
    };
    assert(after[k] == (namespace, page));
    let f = page_from(after, namespace, n, 0);
    assert(f is Some);
    if f->0 < k {
        assert(room[f->0] == after[f->0]);
    }
}

proof fn oldest_in_bounds(pages: Seq<(Seq<char>, PageModel)>, best: int, at: int)
    requires
        0 <= best < at,
        best < pages.len(),
    ensures
        0 <= oldest_from(pages, best, at) < pages.len(),
    decreases pages.len() - at,
{
    if at < pages.len() {
        if pages[at].1.header.lsn < pages[best].1.header.lsn {
            oldest_in_bounds(pages, at, at + 1);
        } else {
            oldest_in_bounds(pages, best, at + 1);
        }
    }
}

/// A pool never holds more pages than it may, except that it holds one even if it may hold none.
pub proof fn pool_stays_small(pool: PoolModel, namespace: Seq<char>, page: PageModel)
    requires
        pool.pages.len() <= pool.max_pages || pool.pages.len() <= 1,
    ensures
        ({
            let after = with_page(with_room(pool.pages, pool.max_pages), namespace, page);
            after.len() <= pool.max_pages || after.len() <= 1
        }),
{
    if pool.pages.len() > 0 {
        oldest_in_bounds(pool.pages, 0, 1);
    }
    page_found(with_room(pool.pages, pool.max_pages), namespace, page.header.page_number, 0);
}

} // verus!
