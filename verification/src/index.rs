//! Where indexed values stand: positions of rows, or numbers of pages.
use crate::altered;
use crate::assoc;
use crate::row;
use crate::row::{Row, RowModel};
use crate::schema;
use crate::schema::{KeyConstraint, KeyModel, SchemaModel, TableSchema};
use crate::seqs;
use crate::text;
use crate::values;
use vstd::prelude::*;

verus! {

// ---------------------------------------------------------------------------------------------
// Which columns are indexed
// ---------------------------------------------------------------------------------------------
/// Whether a column belongs to the primary key or to an index.
pub open spec fn is_indexed(s: SchemaModel, column: Seq<char>) -> bool {
    schema::primary_key(s).contains(column) || exists|i: int|
        0 <= i < s.indexes.len() && (#[trigger] s.indexes[i]).columns.contains(column)
}

fn add_all(out: &mut Vec<String>, names: &Vec<String>)
    requires
        assoc::ascending(old(out).deep_view()),
    ensures
        assoc::ascending(final(out).deep_view()),
        forall|n: Seq<char>|
            #[trigger] final(out).deep_view().contains(n) == (old(out).deep_view().contains(n)
                || names.deep_view().contains(n)),
{
    let ghost before = out.deep_view();
    let ghost all = names.deep_view();
    let mut i: usize = 0;
    while i < names.len()
        invariant
            i <= names@.len(),
            all == names.deep_view(),
            assoc::ascending(out.deep_view()),
            forall|n: Seq<char>|
                #[trigger] out.deep_view().contains(n) == (before.contains(n) || all.take(
                    i as int,
                ).contains(n)),
        decreases names@.len() - i,
    {
        let ghost here = out.deep_view();
        proof {
            assoc::with_name_ascending(here, all[i as int]);
            assert forall|n: Seq<char>|
                #[trigger] assoc::with_name(here, all[i as int]).contains(n) == (before.contains(n)
                    || all.take(i + 1).contains(n)) by {
                let after = assoc::with_name(here, all[i as int]);
                assert(after.contains(n) == after.to_set().contains(n));
                assert(here.contains(n) == here.to_set().contains(n));
                assert(all.take(i + 1) =~= all.take(i as int).push(all[i as int]));
                seqs::push_holds(all.take(i as int), all[i as int], n);
            }
        }
        assoc::add_name(out, names[i].as_str());
        i += 1;
    }
    assert(all.take(i as int) =~= all);
}

/// The indexed columns, each once.
pub fn indexed_columns(s: &TableSchema) -> (r: Vec<String>)
    ensures
        assoc::ascending(r.deep_view()),
        forall|n: Seq<char>| #[trigger] r.deep_view().contains(n) == is_indexed(s@, n),
{
    let mut out: Vec<String> = Vec::new();
    let key = schema::primary_key_columns(s);
    add_all(&mut out, &key);
    let mut i: usize = 0;
    while i < s.indexes.len()
        invariant
            i <= s.indexes@.len(),
            assoc::ascending(out.deep_view()),
            forall|n: Seq<char>|
                #[trigger] out.deep_view().contains(n) == (schema::primary_key(s@).contains(n) || exists|j: int|
                    0 <= j < i && (#[trigger] s@.indexes[j]).columns.contains(n)),
        decreases s.indexes@.len() - i,
    {
        assert(s@.indexes[i as int].columns == s.indexes@[i as int].columns.deep_view());
        let ghost before = out.deep_view();
        add_all(&mut out, &s.indexes[i].columns);
        proof {
            let here = s@.indexes[i as int].columns;
            assert forall|n: Seq<char>|
                #[trigger] out.deep_view().contains(n) == (schema::primary_key(s@).contains(n)
                    || exists|j: int|
                    0 <= j < i + 1 && (#[trigger] s@.indexes[j]).columns.contains(n)) by {
                assert(out.deep_view().contains(n) == (before.contains(n) || here.contains(n)));
                assert(before.contains(n) == (schema::primary_key(s@).contains(n) || exists|j: int|
                    0 <= j < i && (#[trigger] s@.indexes[j]).columns.contains(n)));
            }
        }
        i += 1;
    }
    out
}

// ---------------------------------------------------------------------------------------------
// Places
// ---------------------------------------------------------------------------------------------
/// For a column and a value, the places where it stands, in ascending order.
#[derive(Debug)]
pub struct Places {
    entries: Vec<(String, Vec<u8>, Vec<usize>)>,
}

pub type PlacesModel = Seq<(Seq<char>, Seq<u8>, Seq<usize>)>;

impl View for Places {
    type V = PlacesModel;

    closed spec fn view(&self) -> PlacesModel {
        self.entries.deep_view()
    }
}

pub open spec fn posting_from(e: PlacesModel, c: Seq<char>, v: Seq<u8>, at: int) -> Option<int>
    decreases e.len() - at,
{
    if at < 0 || at >= e.len() {
        None
    } else if e[at].0 == c && e[at].1 == v {
        Some(at)
    } else {
        posting_from(e, c, v, at + 1)
    }
}

/// The places of a value in a column.
pub open spec fn posted(e: PlacesModel, c: Seq<char>, v: Seq<u8>) -> Seq<usize> {
    match posting_from(e, c, v, 0) {
        Some(i) => e[i].2,
        None => Seq::empty(),
    }
}

/// The positions of the rows that have a value in a column.
pub open spec fn holding(rows: Seq<RowModel>, c: Seq<char>, v: Seq<u8>) -> Seq<usize>
    decreases rows.len(),
{
    if rows.len() == 0 {
        Seq::empty()
    } else {
        let rest = holding(rows.drop_last(), c, v);
        if rows.last().present(c) == Some(v) {
            rest.push((rows.len() - 1) as usize)
        } else {
            rest
        }
    }
}

/// Whether one of the rows has a value in a column.
pub open spec fn any_holds(rows: Seq<RowModel>, c: Seq<char>, v: Seq<u8>) -> bool {
    exists|i: int| 0 <= i < rows.len() && (#[trigger] rows[i]).present(c) == Some(v)
}

/// The numbers of the pages on which a row has a value in a column.
pub open spec fn paged(pages: Seq<Seq<RowModel>>, c: Seq<char>, v: Seq<u8>) -> Seq<usize>
    decreases pages.len(),
{
    if pages.len() == 0 {
        Seq::empty()
    } else {
        let rest = paged(pages.drop_last(), c, v);
        if any_holds(pages.last(), c, v) {
            rest.push((pages.len() - 1) as usize)
        } else {
            rest
        }
    }
}

proof fn posting_means(e: PlacesModel, c: Seq<char>, v: Seq<u8>, at: int)
    requires
        0 <= at,
    ensures
        posting_from(e, c, v, at) matches Some(i) ==> at <= i < e.len() && e[i].0 == c && e[i].1
            == v,
    decreases e.len() - at,
{
    if at < e.len() {
        posting_means(e, c, v, at + 1);
    }
}

proof fn posting_update(e: PlacesModel, k: int, list: Seq<usize>, c: Seq<char>, v: Seq<u8>, at: int)
    requires
        0 <= k < e.len(),
        0 <= at,
    ensures
        posting_from(e.update(k, (e[k].0, e[k].1, list)), c, v, at) == posting_from(e, c, v, at),
    decreases e.len() - at,
{
    if at < e.len() {
        posting_update(e, k, list, c, v, at + 1);
    }
}

proof fn posting_push(
    e: PlacesModel,
    entry: (Seq<char>, Seq<u8>, Seq<usize>),
    c: Seq<char>,
    v: Seq<u8>,
    at: int,
)
    requires
        0 <= at <= e.len(),
    ensures
        posting_from(e.push(entry), c, v, at) == (match posting_from(e, c, v, at) {
            Some(i) => Some(i),
            None => if entry.0 == c && entry.1 == v {
                Some(e.len() as int)
            } else {
                None
            },
        }),
    decreases e.len() - at,
{
    if at < e.len() {
        posting_push(e, entry, c, v, at + 1);
    } else {
        assert(posting_from(e.push(entry), c, v, at + 1) is None);
    }
}

proof fn numbers_model(v: Vec<usize>)
    ensures
        v.deep_view() == v@,
{
    assert(v.deep_view() =~= v@);
}

impl Places {
    pub fn new() -> (r: Self)
        ensures
            r@ == PlacesModel::empty(),
            forall|c: Seq<char>, v: Seq<u8>| (#[trigger] posted(r@, c, v)) == Seq::<usize>::empty(),
    {
        let r = Places { entries: Vec::new() };
        assert(r@ =~= Seq::empty());
        r
    }

    fn find(&self, c: &str, v: &[u8]) -> (r: Option<usize>)
        ensures
            r is Some == posting_from(self@, c@, v@, 0) is Some,
            r matches Some(i) ==> i < self.entries@.len() && posting_from(self@, c@, v@, 0) == Some(
                i as int,
            ),
    {
        let ghost e = self@;
        let mut i: usize = 0;
        while i < self.entries.len()
            invariant
                i <= self.entries@.len(),
                e == self.entries.deep_view(),
                posting_from(e, c@, v@, i as int) == posting_from(e, c@, v@, 0),
                e == self@,
            decreases self.entries@.len() - i,
        {
            proof {
                row::bytes_model(self.entries@[i as int].1);
                assert(e[i as int].0 == self.entries@[i as int].0@);
                assert(e[i as int].1 == self.entries@[i as int].1@);
            }
            if text::text_equal(self.entries[i].0.as_str(), c) && text::bytes_equal(
                self.entries[i].1.as_slice(),
                v,
            ) {
                return Some(i);
            }
            i += 1;
        }
        None
    }

    /// The places of a value in a column.
    pub fn get(&self, c: &str, v: &[u8]) -> (r: Vec<usize>)
        ensures
            r@ == posted(self@, c@, v@),
    {
        match self.find(c, v) {
            Some(i) => {
                let out = self.entries[i].2.clone();
                proof {
                    numbers_model(self.entries@[i as int].2);
                    assert(self@[i as int].2 == self.entries@[i as int].2@);
                    assert(out@ =~= self.entries@[i as int].2@);
                }
                out
            },
            None => {
                let out: Vec<usize> = Vec::new();
                assert(out@ =~= Seq::empty());
                out
            },
        }
    }

    /// Adds a place of a value in a column, behind those that it has.
    pub fn post(&mut self, c: &str, v: &[u8], place: usize)
        ensures
            forall|x: Seq<char>, y: Seq<u8>|
                (#[trigger] posted(final(self)@, x, y)) == (if x == c@ && y == v@ {
                    posted(old(self)@, x, y).push(place)
                } else {
                    posted(old(self)@, x, y)
                }),
    {
        let ghost e = self@;
        match self.find(c, v) {
            Some(i) => {
                let name = self.entries[i].0.clone();
                let value = text::copy_bytes(self.entries[i].1.as_slice());
                let mut list = self.entries[i].2.clone();
                proof {
                    numbers_model(self.entries@[i as int].2);
                    assert(list@ =~= self.entries@[i as int].2@);
                    row::bytes_model(self.entries@[i as int].1);
                    row::bytes_model(value);
                }
                list.push(place);
                proof {
                    numbers_model(list);
                }
                let ghost entry = (name@, value@, list@);
                self.entries.set(i, (name, value, list));
                proof {
                    assert(self@ =~= e.update(i as int, (e[i as int].0, e[i as int].1, entry.2)));
                    posting_means(e, c@, v@, 0);
                    assert forall|x: Seq<char>, y: Seq<u8>|
                        (#[trigger] posted(self@, x, y)) == (if x == c@ && y == v@ {
                            posted(e, x, y).push(place)
                        } else {
                            posted(e, x, y)
                        }) by {
                        posting_update(e, i as int, entry.2, x, y, 0);
                        posting_means(e, x, y, 0);
                    }
                }
            },
            None => {
                let mut list: Vec<usize> = Vec::new();
                list.push(place);
                let value = text::copy_bytes(v);
                proof {
                    numbers_model(list);
                    row::bytes_model(value);
                }
                let ghost entry = (c@, v@, list@);
                self.entries.push((text::copy_text(c), value, list));
                proof {
                    assert(self@ =~= e.push(entry));
                    assert forall|x: Seq<char>, y: Seq<u8>|
                        (#[trigger] posted(self@, x, y)) == (if x == c@ && y == v@ {
                            posted(e, x, y).push(place)
                        } else {
                            posted(e, x, y)
                        }) by {
                        posting_push(e, entry, x, y, 0);
                        posting_means(e, x, y, 0);
                        if x == c@ && y == v@ {
                            assert(Seq::<usize>::empty().push(place) =~= list@);
                        }
                    }
                }
            },
        }
    }
}

/// Whether the places of every indexed value are those of the rows.
pub open spec fn row_places_match(e: PlacesModel, columns: Seq<Seq<char>>, rows: Seq<RowModel>) -> bool {
    forall|k: int, v: Seq<u8>|
        0 <= k < columns.len() ==> (#[trigger] posted(e, columns[k], v)) == holding(
            rows,
            columns[k],
            v,
        )
}

/// Whether the places of every indexed value are those of the pages.
pub open spec fn page_places_match(
    e: PlacesModel,
    columns: Seq<Seq<char>>,
    pages: Seq<Seq<RowModel>>,
) -> bool {
    forall|k: int, v: Seq<u8>|
        0 <= k < columns.len() ==> (#[trigger] posted(e, columns[k], v)) == paged(
            pages,
            columns[k],
            v,
        )
}

proof fn ascending_distinct(names: Seq<Seq<char>>)
    requires
        assoc::ascending(names),
    ensures
        forall|i: int, j: int|
            0 <= i < names.len() && 0 <= j < names.len() && i != j ==> (#[trigger] names[i]) != (
            #[trigger] names[j]),
{
    assert forall|i: int, j: int|
        0 <= i < names.len() && 0 <= j < names.len() && i != j implies (#[trigger] names[i]) != (
    #[trigger] names[j]) by {
        assoc::less_irreflexive(names[i]);
        if i < j {
            assert(assoc::text_less(names[i], names[j]));
        } else {
            assert(assoc::text_less(names[j], names[i]));
        }
    }
}

/// Adds the rows from the `from`-th on to places that hold the rows before them.
pub fn add_rows_to_value_index(
    places: &mut Places,
    columns: &Vec<String>,
    rows: &Vec<Row>,
    from: usize,
)
    requires
        assoc::ascending(columns.deep_view()),
        from <= rows@.len(),
        row_places_match(old(places)@, columns.deep_view(), rows.deep_view().take(from as int)),
    ensures
        row_places_match(final(places)@, columns.deep_view(), rows.deep_view()),
{
    let ghost all = rows.deep_view();
    let ghost names = columns.deep_view();
    proof {
        ascending_distinct(names);
    }
    let mut i: usize = from;
    while i < rows.len()
        invariant
            i <= rows@.len(),
            all == rows.deep_view(),
            names == columns.deep_view(),
            row_places_match(places@, names, all.take(i as int)),
            forall|a: int, b: int|
                0 <= a < names.len() && 0 <= b < names.len() && a != b ==> (#[trigger] names[a])
                    != (#[trigger] names[b]),
        decreases rows@.len() - i,
    {
        let ghost before = all.take(i as int);
        let ghost after = all.take(i + 1);
        proof {
            assert(after.drop_last() =~= before);
            assert(after.last() == all[i as int]);
        }
        let mut k: usize = 0;
        while k < columns.len()
            invariant
                k <= columns@.len(),
                i < rows@.len(),
                all == rows.deep_view(),
                names == columns.deep_view(),
                before == all.take(i as int),
                after == all.take(i + 1),
                after.drop_last() == before,
                after.last() == all[i as int],
                after.len() == i + 1,
                forall|j: int, v: Seq<u8>|
                    0 <= j < names.len() ==> (#[trigger] posted(places@, names[j], v))
                        == holding(
                        if j < k {
                            after
                        } else {
                            before
                        },
                        names[j],
                        v,
                    ),
                forall|a: int, b: int|
                    0 <= a < names.len() && 0 <= b < names.len() && a != b ==> (#[trigger] names[a])
                        != (#[trigger] names[b]),
            decreases columns@.len() - k,
        {
            let c = columns[k].as_str();
            assert(c@ == names[k as int]);
            let ghost e = places@;
            assert(all[i as int] == rows@[i as int]@);
            let null = rows[i].is_null(c);
            let found = rows[i].get(c);
            let ghost present = all[i as int].present(c@);
            if !null {
                match found {
                    Some(value) => {
                        assert(present == Some(value@));
                        places.post(c, value, i);
                    },
                    None => {
                        assert(present is None);
                    },
                }
            } else {
                assert(present is None);
            }
            proof {
                assert forall|j: int, v: Seq<u8>| 0 <= j < names.len() implies (#[trigger] posted(
                    places@,
                    names[j],
                    v,
                )) == holding(
                    if j < k + 1 {
                        after
                    } else {
                        before
                    },
                    names[j],
                    v,
                ) by {
                    assert(posted(e, names[j], v) == holding(
                        if j < k {
                            after
                        } else {
                            before
                        },
                        names[j],
                        v,
                    ));
                    if j != k {
                        assert(names[j] != names[k as int]);
                    }
                }
            }
            k += 1;
        }
        i += 1;
    }
    assert(all.take(i as int) =~= all);
}

fn any_row_holds(rows: &Vec<Row>, upto: usize, c: &str, v: &[u8]) -> (r: bool)
    requires
        upto <= rows@.len(),
    ensures
        r == any_holds(rows.deep_view().take(upto as int), c@, v@),
{
    let ghost all = rows.deep_view().take(upto as int);
    let mut i: usize = 0;
    while i < upto
        invariant
            i <= upto <= rows@.len(),
            all == rows.deep_view().take(upto as int),
            forall|j: int| 0 <= j < i ==> (#[trigger] all[j]).present(c@) != Some(v@),
        decreases upto - i,
    {
        assert(all[i as int] == rows@[i as int]@);
        if !rows[i].is_null(c) {
            match rows[i].get(c) {
                Some(value) => {
                    if text::bytes_equal(value, v) {
                        assert(all[i as int].present(c@) == Some(v@));
                        return true;
                    }
                },
                None => {},
            }
        }
        i += 1;
    }
    false
}

/// Adds the rows of one more page to places that hold the pages before it.
pub fn add_rows_to_page_index(
    places: &mut Places,
    columns: &Vec<String>,
    number: usize,
    rows: &Vec<Row>,
    Ghost(pages): Ghost<Seq<Seq<RowModel>>>,
)
    requires
        assoc::ascending(columns.deep_view()),
        number == pages.len(),
        page_places_match(old(places)@, columns.deep_view(), pages),
    ensures
        page_places_match(final(places)@, columns.deep_view(), pages.push(rows.deep_view())),
{
    let ghost all = rows.deep_view();
    let ghost names = columns.deep_view();
    let ghost after = pages.push(all);
    proof {
        ascending_distinct(names);
        assert(after.drop_last() =~= pages);
        assert(all.take(0) =~= Seq::empty());
    }
    let ghost start = places@;
    let mut i: usize = 0;
    while i < rows.len()
        invariant
            i <= rows@.len(),
            all == rows.deep_view(),
            names == columns.deep_view(),
            number == pages.len(),
            forall|j: int, v: Seq<u8>|
                0 <= j < names.len() ==> (#[trigger] posted(places@, names[j], v)) == (
                if any_holds(all.take(i as int), names[j], v) {
                    paged(pages, names[j], v).push(number)
                } else {
                    paged(pages, names[j], v)
                }),
            forall|a: int, b: int|
                0 <= a < names.len() && 0 <= b < names.len() && a != b ==> (#[trigger] names[a])
                    != (#[trigger] names[b]),
        decreases rows@.len() - i,
    {
        let ghost before = all.take(i as int);
        let ghost more = all.take(i + 1);
        proof {
            assert(more =~= before.push(all[i as int]));
            assert forall|c: Seq<char>, v: Seq<u8>| #[trigger]
                any_holds(more, c, v) == (any_holds(before, c, v) || all[i as int].present(c)
                    == Some(v)) by {
                if any_holds(before, c, v) {
                    let j = choose|j: int|
                        0 <= j < before.len() && (#[trigger] before[j]).present(c) == Some(v);
                    assert(more[j] == before[j]);
                }
                if any_holds(more, c, v) {
                    let j = choose|j: int|
                        0 <= j < more.len() && (#[trigger] more[j]).present(c) == Some(v);
                    if j < before.len() {
                        assert(before[j] == more[j]);
                    }
                }
                assert(more[i as int] == all[i as int]);
            }
        }
        let mut k: usize = 0;
        while k < columns.len()
            invariant
                k <= columns@.len(),
                i < rows@.len(),
                all == rows.deep_view(),
                names == columns.deep_view(),
                number == pages.len(),
                before == all.take(i as int),
                more == all.take(i + 1),
                forall|c: Seq<char>, v: Seq<u8>| #[trigger]
                    any_holds(more, c, v) == (any_holds(before, c, v) || all[i as int].present(c)
                        == Some(v)),
                forall|j: int, v: Seq<u8>|
                    0 <= j < names.len() ==> (#[trigger] posted(places@, names[j], v)) == (
                    if any_holds(
                        if j < k {
                            more
                        } else {
                            before
                        },
                        names[j],
                        v,
                    ) {
                        paged(pages, names[j], v).push(number)
                    } else {
                        paged(pages, names[j], v)
                    }),
                forall|a: int, b: int|
                    0 <= a < names.len() && 0 <= b < names.len() && a != b ==> (#[trigger] names[a])
                        != (#[trigger] names[b]),
            decreases columns@.len() - k,
        {
            let c = columns[k].as_str();
            assert(c@ == names[k as int]);
            assert(all[i as int] == rows@[i as int]@);
            let ghost e = places@;
            let null = rows[i].is_null(c);
            let found = rows[i].get(c);
            let ghost present = all[i as int].present(c@);
            if !null {
                match found {
                    Some(value) => {
                        assert(present == Some(value@));
                        if !any_row_holds(rows, i, c, value) {
                            places.post(c, value, number);
                        }
                    },
                    None => {
                        assert(present is None);
                    },
                }
            } else {
                assert(present is None);
            }
            proof {
                assert forall|j: int, v: Seq<u8>| 0 <= j < names.len() implies (#[trigger] posted(
                    places@,
                    names[j],
                    v,
                )) == (if any_holds(
                    if j < k + 1 {
                        more
                    } else {
                        before
                    },
                    names[j],
                    v,
                ) {
                    paged(pages, names[j], v).push(number)
                } else {
                    paged(pages, names[j], v)
                }) by {
                    assert(posted(e, names[j], v) == (if any_holds(
                        if j < k {
                            more
                        } else {
                            before
                        },
                        names[j],
                        v,
                    ) {
                        paged(pages, names[j], v).push(number)
                    } else {
                        paged(pages, names[j], v)
                    }));
                    assert(any_holds(more, names[j], v) == (any_holds(before, names[j], v)
                        || all[i as int].present(names[j]) == Some(v)));
                    if j != k {
                        assert(names[j] != names[k as int]);
                    }
                }
            }
            k += 1;
        }
        i += 1;
    }
    proof {
        assert(all.take(i as int) =~= all);
        assert(after.last() == all);
    }
}

// ---------------------------------------------------------------------------------------------
// Keys
// ---------------------------------------------------------------------------------------------
/// The keys that rows have for a constraint.
pub open spec fn key_set(rows: Seq<RowModel>, columns: Seq<Seq<char>>) -> Set<Seq<u8>>
    decreases rows.len(),
{
    if rows.len() == 0 {
        Set::empty()
    } else {
        match values::key(rows.last(), columns) {
            Some(k) => key_set(rows.drop_last(), columns).insert(k),
            None => key_set(rows.drop_last(), columns),
        }
    }
}

/// A key is among those of rows exactly where one of them has it.
pub proof fn key_set_means(rows: Seq<RowModel>, columns: Seq<Seq<char>>, k: Seq<u8>)
    ensures
        key_set(rows, columns).contains(k) <==> exists|i: int|
            0 <= i < rows.len() && values::key(#[trigger] rows[i], columns) == Some(k),
    decreases rows.len(),
{
    if rows.len() > 0 {
        let rest = rows.drop_last();
        key_set_means(rest, columns, k);
        if key_set(rest, columns).contains(k) {
            let i = choose|i: int|
                0 <= i < rest.len() && values::key(#[trigger] rest[i], columns) == Some(k);
            assert(rows[i] == rest[i]);
        }
        if values::key(rows.last(), columns) == Some(k) {
            assert(rows[rows.len() - 1] == rows.last());
        }
        if exists|i: int| 0 <= i < rows.len() && values::key(#[trigger] rows[i], columns) == Some(k) {
            let i = choose|i: int|
                0 <= i < rows.len() && values::key(#[trigger] rows[i], columns) == Some(k);
            if i < rest.len() {
                assert(rest[i] == rows[i]);
            }
        }
    }
}

/// Whether a list of keys for each constraint holds those of the rows.
pub open spec fn keys_match(
    lists: Seq<Seq<Seq<u8>>>,
    keys: Seq<KeyModel>,
    rows: Seq<RowModel>,
) -> bool {
    lists.len() == keys.len() && forall|i: int|
        0 <= i < keys.len() ==> (#[trigger] lists[i]).to_set() == key_set(rows, keys[i].columns)
}

/// Adds the keys of the rows from the `from`-th on to lists that hold those before them.
pub fn add_constraint_keys(
    lists: &Vec<Vec<Vec<u8>>>,
    keys: &Vec<KeyConstraint>,
    rows: &Vec<Row>,
    from: usize,
) -> (r: Vec<Vec<Vec<u8>>>)
    requires
        from <= rows@.len(),
        keys_match(lists.deep_view(), keys.deep_view(), rows.deep_view().take(from as int)),
    ensures
        keys_match(r.deep_view(), keys.deep_view(), rows.deep_view()),
{
    let ghost all = rows.deep_view();
    let ghost models = keys.deep_view();
    let ghost given = lists.deep_view();
    let mut out: Vec<Vec<Vec<u8>>> = Vec::new();
    let mut k: usize = 0;
    while k < keys.len()
        invariant
            k <= keys@.len(),
            from <= rows@.len(),
            out@.len() == k,
            all == rows.deep_view(),
            models == keys.deep_view(),
            given == lists.deep_view(),
            keys_match(given, models, all.take(from as int)),
            forall|i: int|
                0 <= i < k ==> (#[trigger] out.deep_view()[i]).to_set() == key_set(
                    all,
                    models[i].columns,
                ),
        decreases keys@.len() - k,
    {
        assert(given.len() == lists@.len());
        assert(models.len() == keys@.len());
        let mut list: Vec<Vec<u8>> = copy_keys(&lists[k]);
        assert(list.deep_view() == given[k as int]);
        let ghost columns = models[k as int].columns;
        assert(columns == keys@[k as int].columns.deep_view());
        let mut i: usize = from;
        while i < rows.len()
            invariant
                i <= rows@.len(),
                k < keys@.len(),
                all == rows.deep_view(),
                columns == keys@[k as int].columns.deep_view(),
                list.deep_view().to_set() == key_set(all.take(i as int), columns),
            decreases rows@.len() - i,
        {
            proof {
                assert(all.take(i + 1).drop_last() =~= all.take(i as int));
                assert(all.take(i + 1).last() == rows@[i as int]@);
            }
            match values::encode_key(&rows[i], &keys[k].columns) {
                Some(key) => {
                    altered::add_bytes(&mut list, key);
                },
                None => {},
            }
            i += 1;
        }
        assert(all.take(i as int) =~= all);
        let ghost before = out.deep_view();
        let ghost added = list.deep_view();
        out.push(list);
        assert(out.deep_view() =~= before.push(added));
        k += 1;
    }
    out
}

fn copy_keys(list: &Vec<Vec<u8>>) -> (r: Vec<Vec<u8>>)
    ensures
        r.deep_view() == list.deep_view(),
{
    crate::predicate::copy_byte_strings(list)
}

/// Empty lists of keys, one for each constraint.
pub fn no_keys(keys: &Vec<KeyConstraint>) -> (r: Vec<Vec<Vec<u8>>>)
    ensures
        keys_match(r.deep_view(), keys.deep_view(), Seq::<RowModel>::empty()),
{
    let mut out: Vec<Vec<Vec<u8>>> = Vec::new();
    let mut i: usize = 0;
    while i < keys.len()
        invariant
            i <= keys@.len(),
            out@.len() == i,
            forall|j: int|
                0 <= j < i ==> (#[trigger] out.deep_view()[j]).to_set() == Set::<Seq<u8>>::empty(),
        decreases keys@.len() - i,
    {
        let ghost before = out.deep_view();
        let list: Vec<Vec<u8>> = Vec::new();
        assert(list.deep_view() =~= Seq::empty());
        assert(Seq::<Seq<u8>>::empty().to_set() =~= Set::empty());
        out.push(list);
        assert(out.deep_view() =~= before.push(Seq::empty()));
        i += 1;
    }
    out
}

} // verus!
