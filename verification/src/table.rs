//! A table: its schema, its rows on pages or in memory, and where its indexed values stand.
use crate::altered;
use crate::commands;
use crate::error::DbResult;
use crate::images;
use crate::index;
use crate::index::Places;
use crate::page::Page;
use crate::predicate;
use crate::predicate::{Context, ContextModel, PredicateModel, RowPredicate};
use crate::row::{Row, RowModel};
use crate::rowpages;
use crate::rowpages::RowPageModel;
use crate::schema;
use crate::schema::{Moment, MomentModel, SchemaModel, TableSchema};
use crate::sqltext;
use crate::text;
use vstd::prelude::*;

verus! {

/// A table. Rows that are staged in memory stand in place of those on its pages: all rows of a
/// MEMORY table, and those of any table that was rewritten since the last checkpoint.
#[derive(Debug)]
pub struct Table {
    schema: TableSchema,
    next_id: Option<u64>,
    pages: Vec<Page>,
    overlay: Option<Vec<Row>>,
    keys: Vec<Vec<Vec<u8>>>,
    places: Places,
}

#[verifier::ext_equal]
pub struct TableModel {
    pub schema: SchemaModel,
    /// The number from which AUTO_INCREMENT counts on.
    pub next_id: Option<u64>,
    /// The pages, each with its header, the length of its data and its rows.
    pub pages: Seq<RowPageModel>,
    pub overlay: Option<Seq<RowModel>>,
}

impl TableModel {
    /// The rows of each page.
    pub open spec fn groups(self) -> Seq<Seq<RowModel>> {
        rowpages::rows_of(self.pages)
    }

    /// The rows of the table.
    pub open spec fn rows(self) -> Seq<RowModel> {
        match self.overlay {
            Some(rows) => rows,
            None => rowpages::flat(self.groups()),
        }
    }
}

impl View for Table {
    type V = TableModel;

    closed spec fn view(&self) -> TableModel {
        TableModel {
            schema: self.schema@,
            next_id: self.next_id,
            pages: rowpages::contents(self.pages.deep_view()),
            overlay: self.overlay.deep_view(),
        }
    }
}

impl DeepView for Table {
    type V = TableModel;

    open spec fn deep_view(&self) -> TableModel {
        self@
    }
}

/// Whether the places of every indexed value are those of the table's rows or pages.
pub open spec fn places_match(e: index::PlacesModel, t: TableModel) -> bool {
    forall|c: Seq<char>, v: Seq<u8>|
        index::is_indexed(t.schema, c) ==> (#[trigger] index::posted(e, c, v)) == (match t.overlay {
            Some(rows) => index::holding(rows, c, v),
            None => index::paged(t.groups(), c, v),
        })
}

/// A table that has just been created: it has no pages yet, and its first takes the number that
/// the schema names.
pub open spec fn created(s: SchemaModel) -> TableModel {
    TableModel {
        schema: s,
        next_id: if sqltext::auto_increment(s) is Some {
            Some(1)
        } else {
            None
        },
        pages: Seq::empty(),
        overlay: if sqltext::is_memory(s) {
            Some(Seq::empty())
        } else {
            None
        },
    }
}

/// What an insert comes to: the table with the rows, and the first number generated.
pub open spec fn inserted(t: TableModel, rows: Seq<RowModel>, m: MomentModel) -> Result<
    (TableModel, u64),
    Seq<char>,
> {
    if rows.len() == 0 {
        Ok((t, 0))
    } else {
        match images::numbered(t.schema, t.next_id, rows) {
            Err(e) => Err(e),
            Ok(n) => match images::materialized_all(n.rows, t.schema, m) {
                Err(e) => Err(e),
                Ok(full) => {
                    let next_id = match n.next {
                        Some(next) => Some(next),
                        None => t.next_id,
                    };
                    if sqltext::is_memory(t.schema) || t.overlay is Some {
                        let before = match t.overlay {
                            Some(rows) => rows,
                            None => Seq::empty(),
                        };
                        Ok((TableModel { overlay: Some(before + full), next_id: next_id, ..t }, n.last))
                    } else {
                        match rowpages::pages_for(t.schema.next_page_number as int, full) {
                            Err(e) => Err(e),
                            Ok(added) => Ok(
                                (
                                    TableModel {
                                        schema: SchemaModel {
                                            next_page_number: (t.schema.next_page_number
                                                + added.len()) as u32,
                                            ..t.schema
                                        },
                                        pages: t.pages + added,
                                        next_id: next_id,
                                        ..t
                                    },
                                    n.last,
                                ),
                            ),
                        }
                    }
                },
            },
        }
    }
}

/// A table with rows staged in place of its own.
pub open spec fn staged(t: TableModel, rows: Seq<RowModel>, m: MomentModel) -> Result<
    TableModel,
    Seq<char>,
> {
    match images::prepared(rows, t.schema, m) {
        Err(e) => Err(e),
        Ok(full) => Ok(
            TableModel {
                overlay: Some(full),
                next_id: images::counting(t.schema, t.next_id, full),
                ..t
            },
        ),
    }
}

/// A table whose pages were rewritten with rows. Staged rows stay in place; a MEMORY table has no
/// pages, and its rows are replaced.
pub open spec fn replaced(t: TableModel, rows: Seq<RowModel>, m: MomentModel) -> Result<
    TableModel,
    Seq<char>,
> {
    if sqltext::is_memory(t.schema) {
        staged(t, rows, m)
    } else {
        match images::prepared(rows, t.schema, m) {
            Err(e) => Err(e),
            Ok(full) => match rowpages::pages_for(0, full) {
                Err(e) => Err(e),
                Ok(pages) => Ok(
                    TableModel {
                        schema: SchemaModel {
                            next_page_number: pages.len() as u32,
                            generation: t.schema.generation.saturating_add(1),
                            ..t.schema
                        },
                        pages: pages,
                        ..t
                    },
                ),
            },
        }
    }
}

/// A table that counts on behind the rows that it has.
pub open spec fn recounted(t: TableModel) -> TableModel {
    TableModel { next_id: images::counting(t.schema, t.next_id, t.rows()), ..t }
}

impl Table {
    /// Whether the indexes hold what the rows say, and the pages stand in order, below the number
    /// of the next one.
    pub closed spec fn wf(self) -> bool {
        &&& index::keys_match(
            self.keys.deep_view(),
            schema::keys(self@.schema),
            self@.rows(),
        )
        &&& places_match(self.places@, self@)
        &&& rowpages::in_order(self@.pages, self@.schema.next_page_number as int)
    }

    /// The table of the given parts, with its indexes built anew.
    pub fn build(
        schema: TableSchema,
        next_id: Option<u64>,
        pages: Vec<Page>,
        overlay: Option<Vec<Row>>,
    ) -> (r: Table)
        requires
            rowpages::in_order(
                rowpages::contents(pages.deep_view()),
                schema.next_page_number as int,
            ),
        ensures
            r.wf(),
            r@ == (TableModel {
                schema: schema@,
                next_id: next_id,
                pages: rowpages::contents(pages.deep_view()),
                overlay: overlay.deep_view(),
            }),
    {
        let columns = index::indexed_columns(&schema);
        let constraints = schema::key_constraints(&schema);
        let none = index::no_keys(&constraints);
        let mut places = Places::new();
        let ghost groups = rowpages::page_rows(pages.deep_view());
        let ghost s = schema@;
        match overlay {
            Some(rows) => {
                proof {
                    assert(rows.deep_view().take(0) =~= Seq::empty());
                    assert(index::row_places_match(
                        places@,
                        columns.deep_view(),
                        rows.deep_view().take(0),
                    )) by {
                        assert forall|k: int, v: Seq<u8>|
                            0 <= k < columns.deep_view().len() implies (#[trigger] index::posted(
                            places@,
                            columns.deep_view()[k],
                            v,
                        )) == index::holding(
                            rows.deep_view().take(0),
                            columns.deep_view()[k],
                            v,
                        ) by {}
                    }
                }
                index::add_rows_to_value_index(&mut places, &columns, &rows, 0);
                let keys = index::add_constraint_keys(&none, &constraints, &rows, 0);
                let r = Table {
                    schema: schema,
                    next_id: next_id,
                    pages: pages,
                    overlay: Some(rows),
                    keys: keys,
                    places: places,
                };
                proof {
                    rows_to_places(places@, columns.deep_view(), r@);
                }
                r
            },
            None => {
                let mut all: Vec<Row> = Vec::new();
                let mut i: usize = 0;
                proof {
                    assert(all.deep_view() =~= Seq::empty());
                    assert(groups.take(0) =~= Seq::empty());
                    assert(rowpages::flat(groups.take(0)) =~= Seq::empty());
                    assert(index::page_places_match(places@, columns.deep_view(), groups.take(0))) by {
                        assert forall|k: int, v: Seq<u8>|
                            0 <= k < columns.deep_view().len() implies (#[trigger] index::posted(
                            places@,
                            columns.deep_view()[k],
                            v,
                        )) == index::paged(groups.take(0), columns.deep_view()[k], v) by {}
                    }
                }
                while i < pages.len()
                    invariant
                        i <= pages@.len(),
                        groups == rowpages::page_rows(pages.deep_view()),
                        crate::assoc::ascending(columns.deep_view()),
                        index::page_places_match(
                            places@,
                            columns.deep_view(),
                            groups.take(i as int),
                        ),
                        all.deep_view() == rowpages::flat(groups.take(i as int)),
                    decreases pages@.len() - i,
                {
                    let mut rows = rowpages::unpack_page_rows(&pages[i]);
                    proof {
                        assert(groups[i as int] == rows.deep_view());
                        assert(groups.take(i + 1) =~= groups.take(i as int).push(
                            groups[i as int],
                        ));
                        rowpages::flat_push(groups.take(i as int), groups[i as int]);
                    }
                    index::add_rows_to_page_index(
                        &mut places,
                        &columns,
                        i,
                        &rows,
                        Ghost(groups.take(i as int)),
                    );
                    let ghost before = all.deep_view();
                    let ghost more = rows.deep_view();
                    all.append(&mut rows);
                    assert(all.deep_view() =~= before + more);
                    i += 1;
                }
                assert(groups.take(i as int) =~= groups);
                assert(all.deep_view().take(0) =~= Seq::empty());
                let keys = index::add_constraint_keys(&none, &constraints, &all, 0);
                let r = Table {
                    schema: schema,
                    next_id: next_id,
                    pages: pages,
                    overlay: None,
                    keys: keys,
                    places: places,
                };
                proof {
                    rowpages::contents_rows(r.pages.deep_view());
                    pages_to_places(places@, columns.deep_view(), r@);
                }
                r
            },
        }
    }

    /// The rows of the table.
    pub fn rows(&self) -> (r: Vec<Row>)
        ensures
            r.deep_view() == self@.rows(),
    {
        match &self.overlay {
            Some(rows) => commands::copy_rows(rows),
            None => {
                let ghost groups = rowpages::page_rows(self.pages.deep_view());
                let mut all: Vec<Row> = Vec::new();
                let mut i: usize = 0;
                assert(groups.take(0) =~= Seq::empty());
                assert(all.deep_view() =~= rowpages::flat(groups.take(0)));
                while i < self.pages.len()
                    invariant
                        i <= self.pages@.len(),
                        groups == rowpages::page_rows(self.pages.deep_view()),
                        all.deep_view() == rowpages::flat(groups.take(i as int)),
                    decreases self.pages@.len() - i,
                {
                    let mut rows = rowpages::unpack_page_rows(&self.pages[i]);
                    proof {
                        assert(groups[i as int] == rows.deep_view());
                        assert(groups.take(i + 1) =~= groups.take(i as int).push(
                            groups[i as int],
                        ));
                        rowpages::flat_push(groups.take(i as int), groups[i as int]);
                    }
                    let ghost before = all.deep_view();
                    let ghost more = rows.deep_view();
                    all.append(&mut rows);
                    assert(all.deep_view() =~= before + more);
                    i += 1;
                }
                assert(groups.take(i as int) =~= groups);
                proof {
                    rowpages::contents_rows(self.pages.deep_view());
                }
                all
            },
        }
    }

    pub fn schema(&self) -> (r: &TableSchema)
        ensures
            r@ == self@.schema,
    {
        &self.schema
    }

    pub fn next_id(&self) -> (r: Option<u64>)
        ensures
            r == self@.next_id,
    {
        self.next_id
    }

    /// Whether rows are staged in memory.
    pub fn has_overlay(&self) -> (r: bool)
        ensures
            r == self@.overlay is Some,
    {
        self.overlay.is_some()
    }

    /// The table's pages, as they are to stand on disk: each at its own number, below the next.
    pub fn stored_pages(&self) -> (r: &Vec<Page>)
        requires
            self.wf(),
        ensures
            rowpages::contents(r.deep_view()) == self@.pages,
            rowpages::in_order(self@.pages, self@.schema.next_page_number as int),
    {
        &self.pages
    }

    pub fn create(schema: TableSchema) -> (r: Table)
        ensures
            r.wf(),
            r@ == created(schema@),
    {
        let pages: Vec<Page> = Vec::new();
        let next_id: Option<u64> = if sqltext::auto_increment_column(&schema).is_some() {
            Some(1)
        } else {
            None
        };
        let overlay: Option<Vec<Row>> = if sqltext::is_memory_schema(&schema) {
            Some(Vec::new())
        } else {
            None
        };
        proof {
            assert(rowpages::contents(pages.deep_view()) =~= created(schema@).pages);
            assert(overlay is Some ==> (overlay->0).deep_view() =~= Seq::empty());
        }
        Table::build(schema, next_id, pages, overlay)
    }

    /// Whether a row has a key for the `k`-th constraint.
    pub fn constraint_key_exists(&self, k: usize, key: &[u8]) -> (r: bool)
        requires
            self.wf(),
            k < schema::keys(self@.schema).len(),
        ensures
            r == index::key_set(self@.rows(), schema::keys(self@.schema)[k as int].columns).contains(
                key@,
            ),
    {
        assert(self.keys.deep_view().len() == self.keys@.len());
        assert(self.keys.deep_view()[k as int] == self.keys@[k as int].deep_view());
        altered::bytes_among(&self.keys[k], key)
    }

    fn add_staged(&mut self, rows: &Vec<Row>, next_id: Option<u64>)
        requires
            old(self).wf(),
        ensures
            final(self).wf(),
            final(self)@ == (TableModel {
                overlay: Some(
                    (match old(self)@.overlay {
                        Some(rows) => rows,
                        None => Seq::empty(),
                    }) + rows.deep_view(),
                ),
                next_id: next_id,
                ..old(self)@
            }),
    {
        let mut current: Vec<Row> = match &self.overlay {
            Some(given) => commands::copy_rows(given),
            None => Vec::new(),
        };
        let ghost start = current.deep_view();
        assert(self.overlay is None ==> start =~= Seq::empty());
        let mut i: usize = 0;
        assert(rows.deep_view().take(0) =~= Seq::empty());
        assert(current.deep_view() =~= start + rows.deep_view().take(0));
        while i < rows.len()
            invariant
                i <= rows@.len(),
                current.deep_view() == start + rows.deep_view().take(i as int),
            decreases rows@.len() - i,
        {
            let ghost before = current.deep_view();
            let one = rows[i].clone();
            current.push(one);
            assert(current.deep_view() =~= before.push(rows.deep_view()[i as int]));
            assert(current.deep_view() =~= start + rows.deep_view().take(i + 1));
            i += 1;
        }
        assert(rows.deep_view().take(i as int) =~= rows.deep_view());
        if self.overlay.is_some() {
            let from: usize = current.len() - rows.len();
            let columns = index::indexed_columns(&self.schema);
            let constraints = schema::key_constraints(&self.schema);
            proof {
                assert(current.deep_view().take(from as int) =~= start);
                places_to_rows(self.places@, columns.deep_view(), self@);
            }
            index::add_rows_to_value_index(&mut self.places, &columns, &current, from);
            let keys = index::add_constraint_keys(&self.keys, &constraints, &current, from);
            self.keys = keys;
            self.overlay = Some(current);
            self.next_id = next_id;
            proof {
                rows_to_places(self.places@, columns.deep_view(), self@);
            }
        } else {
            let pages = self.pages.clone();
            assert(pages.deep_view() =~= self.pages.deep_view());
            *self = Table::build(self.schema.clone(), next_id, pages, Some(current));
        }
    }

    fn add_paged(&mut self, rows: &Vec<Row>, mut added: Vec<Page>, next_id: Option<u64>)
        requires
            old(self).wf(),
            old(self)@.overlay is None,
            old(self)@.schema.next_page_number + added@.len() <= u32::MAX,
            rows.deep_view() == rowpages::flat(rowpages::page_rows(added.deep_view())),
            rowpages::contents(added.deep_view()) == rowpages::laid_out(
                old(self)@.schema.next_page_number as int,
                rowpages::page_rows(added.deep_view()),
            ),
        ensures
            final(self).wf(),
            final(self)@ == (TableModel {
                schema: SchemaModel {
                    next_page_number: (old(self)@.schema.next_page_number + added@.len()) as u32,
                    ..old(self)@.schema
                },
                pages: old(self)@.pages + rowpages::contents(added.deep_view()),
                next_id: next_id,
                ..old(self)@
            }),
    {
        let ghost before = self@;
        let ghost held_rows = before.groups();
        let ghost more = rowpages::page_rows(added.deep_view());
        let columns = index::indexed_columns(&self.schema);
        let constraints = schema::key_constraints(&self.schema);
        let first: usize = self.pages.len();
        let mut all = self.rows();
        let from: usize = all.len();
        let mut copy = commands::copy_rows(rows);
        all.append(&mut copy);
        proof {
            assert(all.deep_view() =~= before.rows() + rows.deep_view());
            assert(all.deep_view().take(from as int) =~= before.rows());
            rowpages::flat_concat(held_rows, more);
            rowpages::in_order_len(before.pages, before.schema.next_page_number as int);
            places_to_pages(self.places@, columns.deep_view(), self@);
            assert(held_rows + more.take(0) =~= held_rows);
        }
        let keys = index::add_constraint_keys(&self.keys, &constraints, &all, from);
        let mut i: usize = 0;
        while i < added.len()
            invariant
                i <= added@.len(),
                more == rowpages::page_rows(added.deep_view()),
                crate::assoc::ascending(columns.deep_view()),
                first == held_rows.len(),
                first + added@.len() <= u32::MAX,
                index::page_places_match(
                    self.places@,
                    columns.deep_view(),
                    held_rows + more.take(i as int),
                ),
                self.schema@ == before.schema,
                rowpages::contents(self.pages.deep_view()) == before.pages,
                self.overlay is None,
            decreases added@.len() - i,
        {
            let group = rowpages::unpack_page_rows(&added[i]);
            proof {
                assert(more[i as int] == group.deep_view());
                assert(held_rows + more.take(i + 1) =~= (held_rows + more.take(
                    i as int,
                )).push(group.deep_view()));
            }
            index::add_rows_to_page_index(
                &mut self.places,
                &columns,
                first + i,
                &group,
                Ghost(held_rows + more.take(i as int)),
            );
            i += 1;
        }
        assert(more.take(i as int) =~= more);
        let ghost held = self.pages.deep_view();
        let ghost new_pages = added.deep_view();
        let count: u32 = self.schema.next_page_number + added.len() as u32;
        self.pages.append(&mut added);
        self.keys = keys;
        self.schema.next_page_number = count;
        self.next_id = next_id;
        proof {
            assert(self.pages.deep_view() =~= held + new_pages);
            assert(rowpages::contents(self.pages.deep_view()) =~= before.pages + rowpages::contents(
                new_pages,
            ));
            rowpages::contents_rows(new_pages);
            assert(self@.groups() =~= held_rows + more);
            rowpages::laid_out_in_order(
                before.pages,
                before.schema.next_page_number as int,
                more,
            );
            assert(schema::keys(self@.schema) == schema::keys(before.schema));
            assert forall|c: Seq<char>| index::is_indexed(self@.schema, c) == index::is_indexed(
                before.schema,
                c,
            ) by {}
            pages_to_places(self.places@, columns.deep_view(), self@);
        }
    }

    /// Adds rows that were checked before: numbers them, completes them, and puts them on pages of
    /// their own, or behind the staged rows. The result is the first number generated.
    pub fn insert_rows_validated(&mut self, rows: &Vec<Row>, m: &Moment) -> (r: DbResult<u64>)
        requires
            old(self).wf(),
        ensures
            final(self).wf(),
            match r {
                Ok(id) => inserted(old(self)@, rows.deep_view(), m@) == Ok::<
                    (TableModel, u64),
                    Seq<char>,
                >((final(self)@, id)),
                Err(e) => inserted(old(self)@, rows.deep_view(), m@) == Err::<
                    (TableModel, u64),
                    Seq<char>,
                >(e.message@) && final(self)@ == old(self)@,
            },
    {
        assert(rows.deep_view().len() == rows@.len());
        if rows.len() == 0 {
            return Ok(0);
        }
        let n = match images::assign_auto_increment_rows(&self.schema, self.next_id, rows) {
            Err(e) => {
                return Err(e);
            },
            Ok(n) => n,
        };
        let full = match images::materialize_rows(&n.rows, &self.schema, m) {
            Err(e) => {
                return Err(e);
            },
            Ok(full) => full,
        };
        let next_id = match n.next {
            Some(next) => Some(next),
            None => self.next_id,
        };
        if sqltext::is_memory_schema(&self.schema) || self.overlay.is_some() {
            self.add_staged(&full, next_id);
            return Ok(n.last);
        }
        let first: u32 = self.schema.next_page_number;
        let pages = match rowpages::pack_row_pages(first, full.as_slice()) {
            Err(e) => {
                return Err(e);
            },
            Ok(pages) => pages,
        };
        let stored = anonymous_rows(&full);
        assert(rowpages::contents(pages.deep_view()).len() == pages@.len());
        self.add_paged(&stored, pages, next_id);
        Ok(n.last)
    }

    /// Stages rows in place of the table's own.
    pub fn stage_rows(&mut self, rows: &Vec<Row>, m: &Moment) -> (r: DbResult<()>)
        requires
            old(self).wf(),
        ensures
            final(self).wf(),
            match r {
                Ok(_) => staged(old(self)@, rows.deep_view(), m@) == Ok::<TableModel, Seq<char>>(
                    final(self)@,
                ),
                Err(e) => staged(old(self)@, rows.deep_view(), m@) == Err::<TableModel, Seq<char>>(
                    e.message@,
                ) && final(self)@ == old(self)@,
            },
    {
        match images::prepare_replacement_rows(rows, &self.schema, m) {
            Err(e) => Err(e),
            Ok(full) => {
                let next_id = images::count_on(&self.schema, self.next_id, &full);
                let pages = self.pages.clone();
                assert(pages.deep_view() =~= self.pages.deep_view());
                *self = Table::build(self.schema.clone(), next_id, pages, Some(full));
                Ok(())
            },
        }
    }

    /// Whether the table's pages could be rewritten with rows.
    pub fn check_replacement(&self, rows: &Vec<Row>, m: &Moment) -> (r: DbResult<()>)
        ensures
            !sqltext::is_memory(self@.schema) ==> match r {
                Ok(_) => replaced(self@, rows.deep_view(), m@) is Ok,
                Err(e) => replaced(self@, rows.deep_view(), m@) == Err::<TableModel, Seq<char>>(
                    e.message@,
                ),
            },
    {
        match images::prepare_replacement_rows(rows, &self.schema, m) {
            Err(e) => Err(e),
            Ok(full) => {
                match rowpages::pack_row_pages(0, full.as_slice()) {
                    Err(e) => Err(e),
                    Ok(_) => Ok(()),
                }
            },
        }
    }

    /// Rewrites the table's pages with rows.
    pub fn replace_rows(&mut self, rows: &Vec<Row>, m: &Moment) -> (r: DbResult<()>)
        requires
            old(self).wf(),
        ensures
            final(self).wf(),
            match r {
                Ok(_) => replaced(old(self)@, rows.deep_view(), m@) == Ok::<TableModel, Seq<char>>(
                    final(self)@,
                ),
                Err(e) => replaced(old(self)@, rows.deep_view(), m@) == Err::<
                    TableModel,
                    Seq<char>,
                >(e.message@) && final(self)@ == old(self)@,
            },
    {
        if sqltext::is_memory_schema(&self.schema) {
            return self.stage_rows(rows, m);
        }
        match images::prepare_replacement_rows(rows, &self.schema, m) {
            Err(e) => Err(e),
            Ok(full) => {
                match rowpages::pack_row_pages(0, full.as_slice()) {
                    Err(e) => Err(e),
                    Ok(pages) => {
                        let mut s = self.schema.clone();
                        s.next_page_number = pages.len() as u32;
                        s.generation = s.generation.saturating_add(1);
                        let overlay: Option<Vec<Row>> = match &self.overlay {
                            Some(given) => Some(commands::copy_rows(given)),
                            None => None,
                        };
                        proof {
                            let none = Seq::<RowPageModel>::empty();
                            let parts = rowpages::page_rows(pages.deep_view());
                            assert(parts.len() == pages@.len());
                            assert(rowpages::contents(pages.deep_view()).len() == pages@.len());
                            rowpages::laid_out_in_order(none, 0, parts);
                            assert(none + rowpages::laid_out(0, parts) =~= rowpages::laid_out(
                                0,
                                parts,
                            ));
                        }
                        *self = Table::build(s, self.next_id, pages, overlay);
                        Ok(())
                    },
                }
            },
        }
    }

    /// Builds the indexes anew, and counts on behind the rows.
    pub fn rebuild_indexes(&mut self)
        requires
            old(self).wf(),
        ensures
            final(self).wf(),
            final(self)@ == recounted(old(self)@),
    {
        let rows = self.rows();
        let next_id = images::count_on(&self.schema, self.next_id, &rows);
        self.next_id = next_id;
    }

    /// Sets the schema; the indexes follow it.
    pub fn set_schema(&mut self, s: TableSchema)
        requires
            old(self).wf(),
            s.next_page_number == old(self)@.schema.next_page_number,
        ensures
            final(self).wf(),
            final(self)@ == (TableModel { schema: s@, ..old(self)@ }),
    {
        let pages = self.pages.clone();
        assert(pages.deep_view() =~= self.pages.deep_view());
        let overlay: Option<Vec<Row>> = match &self.overlay {
            Some(given) => Some(commands::copy_rows(given)),
            None => None,
        };
        *self = Table::build(s, self.next_id, pages, overlay);
    }

    pub fn set_next_id(&mut self, next_id: Option<u64>)
        requires
            old(self).wf(),
        ensures
            final(self).wf(),
            final(self)@ == (TableModel { next_id: next_id, ..old(self)@ }),
    {
        self.next_id = next_id;
    }

    /// Lets the rows on pages stand again.
    pub fn drop_overlay(&mut self)
        requires
            old(self).wf(),
        ensures
            final(self).wf(),
            final(self)@ == (TableModel { overlay: None, ..old(self)@ }),
    {
        let pages = self.pages.clone();
        assert(pages.deep_view() =~= self.pages.deep_view());
        *self = Table::build(self.schema.clone(), self.next_id, pages, None);
    }
}

/// Rows as they come back from pages.
pub fn anonymous_rows(rows: &Vec<Row>) -> (r: Vec<Row>)
    ensures
        r.deep_view() == rowpages::anonymous(rows.deep_view()),
{
    let ghost target = rowpages::anonymous(rows.deep_view());
    let mut out: Vec<Row> = Vec::new();
    let mut i: usize = 0;
    assert(out.deep_view() =~= target.take(0));
    while i < rows.len()
        invariant
            i <= rows@.len(),
            target == rowpages::anonymous(rows.deep_view()),
            out.deep_view() == target.take(i as int),
        decreases rows@.len() - i,
    {
        let ghost before = out.deep_view();
        let r = rows[i].without_id();
        out.push(r);
        assert(out.deep_view() =~= before.push(target[i as int]));
        assert(target.take(i + 1) =~= target.take(i as int).push(target[i as int]));
        i += 1;
    }
    assert(target.take(i as int) =~= target);
    out
}

proof fn rows_to_places(e: index::PlacesModel, columns: Seq<Seq<char>>, t: TableModel)
    requires
        t.overlay is Some,
        index::row_places_match(e, columns, t.overlay->0),
        forall|n: Seq<char>| #[trigger] columns.contains(n) == index::is_indexed(t.schema, n),
    ensures
        places_match(e, t),
{
    assert forall|c: Seq<char>, v: Seq<u8>| index::is_indexed(t.schema, c) implies (
    #[trigger] index::posted(e, c, v)) == index::holding(t.overlay->0, c, v) by {
        assert(columns.contains(c));
        let k = choose|k: int| 0 <= k < columns.len() && columns[k] == c;
        assert(index::posted(e, columns[k], v) == index::holding(t.overlay->0, columns[k], v));
    }
}

proof fn places_to_rows(e: index::PlacesModel, columns: Seq<Seq<char>>, t: TableModel)
    requires
        t.overlay is Some,
        places_match(e, t),
        forall|n: Seq<char>| #[trigger] columns.contains(n) == index::is_indexed(t.schema, n),
    ensures
        index::row_places_match(e, columns, t.overlay->0),
{
    assert forall|k: int, v: Seq<u8>| 0 <= k < columns.len() implies (#[trigger] index::posted(
        e,
        columns[k],
        v,
    )) == index::holding(t.overlay->0, columns[k], v) by {
        assert(columns.contains(columns[k]));
    }
}

proof fn pages_to_places(e: index::PlacesModel, columns: Seq<Seq<char>>, t: TableModel)
    requires
        t.overlay is None,
        index::page_places_match(e, columns, t.groups()),
        forall|n: Seq<char>| #[trigger] columns.contains(n) == index::is_indexed(t.schema, n),
    ensures
        places_match(e, t),
{
    assert forall|c: Seq<char>, v: Seq<u8>| index::is_indexed(t.schema, c) implies (
    #[trigger] index::posted(e, c, v)) == index::paged(t.groups(), c, v) by {
        assert(columns.contains(c));
        let k = choose|k: int| 0 <= k < columns.len() && columns[k] == c;
        assert(index::posted(e, columns[k], v) == index::paged(t.groups(), columns[k], v));
    }
}

proof fn places_to_pages(e: index::PlacesModel, columns: Seq<Seq<char>>, t: TableModel)
    requires
        t.overlay is None,
        places_match(e, t),
        forall|n: Seq<char>| #[trigger] columns.contains(n) == index::is_indexed(t.schema, n),
    ensures
        index::page_places_match(e, columns, t.groups()),
{
    assert forall|k: int, v: Seq<u8>| 0 <= k < columns.len() implies (#[trigger] index::posted(
        e,
        columns[k],
        v,
    )) == index::paged(t.groups(), columns[k], v) by {
        assert(columns.contains(columns[k]));
    }
}

// ---------------------------------------------------------------------------------------------
// Scans
// ---------------------------------------------------------------------------------------------
pub open spec fn passes_fn(filter: Option<PredicateModel>, cx: ContextModel) -> spec_fn(
    RowModel,
) -> bool {
    |r: RowModel| predicate::passes(filter, r, cx)
}

pub open spec fn has_fn(c: Seq<char>, v: Seq<u8>) -> spec_fn(RowModel) -> bool {
    |r: RowModel| r.present(c) == Some(v)
}

/// The first rows, up to a limit.
pub open spec fn limited(rows: Seq<RowModel>, limit: Option<usize>) -> Seq<RowModel> {
    match limit {
        Some(n) => if n < rows.len() {
            rows.take(n as int)
        } else {
            rows
        },
        None => rows,
    }
}

/// The rows that have one of the values from the `at`-th on in a column, value after value.
pub open spec fn with_values(
    rows: Seq<RowModel>,
    c: Seq<char>,
    wanted: Seq<Seq<u8>>,
    at: int,
) -> Seq<RowModel>
    decreases wanted.len() - at,
{
    if at < 0 || at >= wanted.len() {
        Seq::empty()
    } else {
        rows.filter(has_fn(c, wanted[at])) + with_values(rows, c, wanted, at + 1)
    }
}

/// Whether a page holds a row with one of the values in a column.
pub open spec fn page_has(c: Seq<char>, wanted: Seq<Seq<u8>>) -> spec_fn(Seq<RowModel>) -> bool {
    |p: Seq<RowModel>|
        exists|j: int| 0 <= j < wanted.len() && index::any_holds(p, c, #[trigger] wanted[j])
}

/// The column and the values that a filter asks for by equality.
pub open spec fn wanted_values(filter: Option<PredicateModel>) -> Option<(Seq<char>, Seq<Seq<u8>>)> {
    match filter {
        Some(PredicateModel::Eq(c, v)) => Some((c, seq![v])),
        Some(PredicateModel::In(c, list)) => Some((c, list)),
        _ => None,
    }
}

/// The rows among which a scan looks. Where the filter asks for values of an indexed column, they
/// are those of staged rows with these values, or all rows of the pages that hold one of them.
pub open spec fn candidates(t: TableModel, filter: Option<PredicateModel>) -> Seq<RowModel> {
    match wanted_values(filter) {
        None => t.rows(),
        Some((c, wanted)) => if !index::is_indexed(t.schema, c) {
            t.rows()
        } else {
            match t.overlay {
                Some(rows) => with_values(rows, c, wanted, 0),
                None => rowpages::flat(t.groups().filter(page_has(c, wanted))),
            }
        },
    }
}

/// The rows that a scan finds.
pub open spec fn scanned(
    t: TableModel,
    filter: Option<PredicateModel>,
    limit: Option<usize>,
    cx: ContextModel,
) -> Seq<RowModel> {
    limited(candidates(t, filter).filter(passes_fn(filter, cx)), limit)
}

proof fn filter_prefix(s: Seq<RowModel>, p: spec_fn(RowModel) -> bool, n: int)
    requires
        0 <= n <= s.len(),
    ensures
        s.filter(p) == s.take(n).filter(p) + s.skip(n).filter(p),
    decreases s.len(),
{
    reveal(Seq::filter);
    if n == s.len() {
        assert(s.take(n) =~= s);
        assert(s.skip(n) =~= Seq::empty());
        assert(s.filter(p) =~= s.take(n).filter(p) + s.skip(n).filter(p));
    } else {
        let t = s.drop_last();
        filter_prefix(t, p, n);
        assert(t.take(n) =~= s.take(n));
        assert(s.skip(n).drop_last() =~= t.skip(n));
        assert(s.skip(n).last() == s.last());
        assert(s.filter(p) =~= s.take(n).filter(p) + s.skip(n).filter(p));
    }
}

/// The rows that pass a filter, up to a limit.
pub fn filter_rows(
    rows: &Vec<Row>,
    filter: &Option<RowPredicate>,
    limit: Option<usize>,
    cx: &Context,
) -> (r: Vec<Row>)
    ensures
        r.deep_view() == limited(
            rows.deep_view().filter(passes_fn(filter.deep_view(), cx@)),
            limit,
        ),
{
    let ghost all = rows.deep_view();
    let ghost p = passes_fn(filter.deep_view(), cx@);
    let mut out: Vec<Row> = Vec::new();
    let mut i: usize = 0;
    assert(all.take(0).filter(p) =~= Seq::empty()) by {
        reveal(Seq::filter);
    }
    assert(out.deep_view() =~= Seq::empty());
    while i < rows.len()
        invariant
            i <= rows@.len(),
            all == rows.deep_view(),
            p == passes_fn(filter.deep_view(), cx@),
            out.deep_view() == all.take(i as int).filter(p),
            limit matches Some(n) ==> out@.len() <= n,
        decreases rows@.len() - i,
    {
        match limit {
            Some(n) => {
                if out.len() >= n {
                    proof {
                        filter_prefix(all, p, i as int);
                        assert(out.deep_view().len() == out@.len());
                        assert(all.filter(p).take(n as int) =~= out.deep_view());
                        assert(limited(all.filter(p), limit) =~= out.deep_view());
                    }
                    return out;
                }
            },
            None => {},
        }
        proof {
            crate::seqs::filter_step(all, i as int, p);
            assert(all[i as int] == rows@[i as int]@);
        }
        let ghost before = out.deep_view();
        if predicate::row_matches(&rows[i], filter, cx) {
            let copy = rows[i].clone();
            out.push(copy);
            assert(out.deep_view() =~= before.push(all[i as int]));
        }
        i += 1;
    }
    assert(all.take(i as int) =~= all);
    assert(out.deep_view().len() == out@.len());
    out
}

/// The rows at the positions where a value stands are the rows that have it.
proof fn rows_at_places(rows: Seq<RowModel>, c: Seq<char>, v: Seq<u8>)
    requires
        rows.len() <= usize::MAX,
    ensures
        forall|k: int|
            0 <= k < index::holding(rows, c, v).len() ==> (#[trigger] index::holding(rows, c, v)[k])
                < rows.len(),
        index::holding(rows, c, v).map_values(|i: usize| rows[i as int]) == rows.filter(
            has_fn(c, v),
        ),
    decreases rows.len(),
{
    reveal(Seq::filter);
    let places = index::holding(rows, c, v);
    let pick = |i: usize| rows[i as int];
    if rows.len() == 0 {
        assert(places.map_values(pick) =~= rows.filter(has_fn(c, v)));
    } else {
        let t = rows.drop_last();
        rows_at_places(t, c, v);
        let rest = index::holding(t, c, v);
        let pick_rest = |i: usize| t[i as int];
        assert(rest.map_values(pick) =~= rest.map_values(pick_rest));
        if rows.last().present(c) == Some(v) {
            assert(places.map_values(pick) =~= rest.map_values(pick).push(rows.last()));
        } else {
            assert(places == rest);
        }
        assert(places.map_values(pick) =~= rows.filter(has_fn(c, v)));
    }
}

/// A page's number is among the places of a value exactly where the page holds it.
proof fn page_among_places(pages: Seq<Seq<RowModel>>, c: Seq<char>, v: Seq<u8>, i: int)
    requires
        0 <= i < pages.len() <= usize::MAX,
    ensures
        index::paged(pages, c, v).contains(i as usize) == index::any_holds(pages[i], c, v),
    decreases pages.len(),
{
    let t = pages.drop_last();
    let rest = index::paged(t, c, v);
    places_below(t, c, v);
    if i < t.len() {
        page_among_places(t, c, v, i);
        assert(t[i] == pages[i]);
        if index::any_holds(pages.last(), c, v) {
            crate::seqs::push_holds(rest, (pages.len() - 1) as usize, i as usize);
        }
    } else {
        if index::any_holds(pages.last(), c, v) {
            crate::seqs::push_holds(rest, (pages.len() - 1) as usize, i as usize);
        } else if rest.contains(i as usize) {
            let k = choose|k: int| 0 <= k < rest.len() && rest[k] == i as usize;
            assert(rest[k] < t.len());
        }
    }
}

proof fn places_below(pages: Seq<Seq<RowModel>>, c: Seq<char>, v: Seq<u8>)
    requires
        pages.len() <= usize::MAX,
    ensures
        forall|k: int|
            0 <= k < index::paged(pages, c, v).len() ==> (#[trigger] index::paged(pages, c, v)[k])
                < pages.len(),
    decreases pages.len(),
{
    if pages.len() > 0 {
        let rest = index::paged(pages.drop_last(), c, v);
        places_below(pages.drop_last(), c, v);
        assert forall|k: int| 0 <= k < index::paged(pages, c, v).len() implies (
        #[trigger] index::paged(pages, c, v)[k]) < pages.len() by {
            if k < rest.len() {
                assert(rest[k] < pages.drop_last().len());
            }
        }
    }
}

fn contains_number(list: &Vec<usize>, n: usize) -> (r: bool)
    ensures
        r == list@.contains(n),
{
    let mut i: usize = 0;
    while i < list.len()
        invariant
            i <= list@.len(),
            forall|j: int| 0 <= j < i ==> list@[j] != n,
        decreases list@.len() - i,
    {
        if list[i] == n {
            return true;
        }
        i += 1;
    }
    false
}

impl Table {
    fn staged_with_values(&self, rows: &Vec<Row>, c: &str, wanted: &Vec<Vec<u8>>) -> (r: Vec<Row>)
        requires
            self.wf(),
            self@.overlay == Some(rows.deep_view()),
            index::is_indexed(self@.schema, c@),
        ensures
            r.deep_view() == with_values(rows.deep_view(), c@, wanted.deep_view(), 0),
    {
        let total: usize = rows.len();
        let ghost all = rows.deep_view();
        let ghost list = wanted.deep_view();
        let ghost whole = with_values(all, c@, list, 0);
        let mut out: Vec<Row> = Vec::new();
        let mut i: usize = 0;
        assert(out.deep_view() + whole =~= whole);
        while i < wanted.len()
            invariant
                i <= wanted@.len(),
                all == rows.deep_view(),
                all.len() == total,
                list == wanted.deep_view(),
                self.wf(),
                self@.overlay == Some(all),
                index::is_indexed(self@.schema, c@),
                whole == out.deep_view() + with_values(all, c@, list, i as int),
            decreases wanted@.len() - i,
        {
            let ghost before = out.deep_view();
            let ghost v = list[i as int];
            proof {
                crate::row::bytes_model(wanted@[i as int]);
                assert(v == wanted@[i as int]@);
                rows_at_places(all, c@, v);
            }
            let places = self.places.get(c, wanted[i].as_slice());
            let ghost pick = |k: usize| all[k as int];
            let ghost found = places@.map_values(pick);
            assert(places@ == index::holding(all, c@, v));
            let mut k: usize = 0;
            assert(before + found.take(0) =~= before);
            while k < places.len()
                invariant
                    k <= places@.len(),
                    all == rows.deep_view(),
                    forall|j: int| 0 <= j < places@.len() ==> (#[trigger] places@[j]) < all.len(),
                    pick == (|k: usize| all[k as int]),
                    found == places@.map_values(pick),
                    out.deep_view() == before + found.take(k as int),
                decreases places@.len() - k,
            {
                assert(places@[k as int] < all.len());
                let ghost now = out.deep_view();
                let one = rows[places[k]].clone();
                out.push(one);
                assert(out.deep_view() =~= now.push(found[k as int]));
                assert(out.deep_view() =~= before + found.take(k + 1));
                k += 1;
            }
            assert(found.take(k as int) =~= found);
            assert(before + (found + with_values(all, c@, list, i + 1)) =~= (before + found)
                + with_values(all, c@, list, i + 1));
            i += 1;
        }
        assert(whole =~= out.deep_view());
        out
    }

    fn page_wanted(&self, number: usize, c: &str, wanted: &Vec<Vec<u8>>) -> (r: bool)
        requires
            self.wf(),
            self@.overlay is None,
            index::is_indexed(self@.schema, c@),
            number < self@.pages.len(),
        ensures
            r == page_has(c@, wanted.deep_view())(self@.groups()[number as int]),
    {
        let ghost list = wanted.deep_view();
        let ghost p = self@.groups()[number as int];
        let mut i: usize = 0;
        while i < wanted.len()
            invariant
                i <= wanted@.len(),
                list == wanted.deep_view(),
                self.wf(),
                self@.overlay is None,
                index::is_indexed(self@.schema, c@),
                number < self@.pages.len(),
                p == self@.groups()[number as int],
                forall|j: int| 0 <= j < i ==> !index::any_holds(p, c@, #[trigger] list[j]),
            decreases wanted@.len() - i,
        {
            proof {
                crate::row::bytes_model(wanted@[i as int]);
                assert(list[i as int] == wanted@[i as int]@);
                rowpages::in_order_len(self@.pages, self@.schema.next_page_number as int);
                page_among_places(self@.groups(), c@, list[i as int], number as int);
            }
            let places = self.places.get(c, wanted[i].as_slice());
            if contains_number(&places, number) {
                return true;
            }
            i += 1;
        }
        false
    }

    fn paged_with_values(&self, c: &str, wanted: &Vec<Vec<u8>>) -> (r: Vec<Row>)
        requires
            self.wf(),
            self@.overlay is None,
            index::is_indexed(self@.schema, c@),
        ensures
            r.deep_view() == rowpages::flat(
                self@.groups().filter(page_has(c@, wanted.deep_view())),
            ),
    {
        let ghost groups = self@.groups();
        let ghost p = page_has(c@, wanted.deep_view());
        let mut out: Vec<Row> = Vec::new();
        let mut i: usize = 0;
        assert(groups.take(0).filter(p) =~= Seq::empty()) by {
            reveal(Seq::filter);
        }
        assert(out.deep_view() =~= rowpages::flat(groups.take(0).filter(p)));
        assert(groups.len() == self.pages@.len());
        while i < self.pages.len()
            invariant
                i <= self.pages@.len() == groups.len(),
                groups == self@.groups(),
                self.wf(),
                self@.overlay is None,
                index::is_indexed(self@.schema, c@),
                p == page_has(c@, wanted.deep_view()),
                out.deep_view() == rowpages::flat(groups.take(i as int).filter(p)),
            decreases self.pages@.len() - i,
        {
            proof {
                crate::seqs::filter_step(groups, i as int, p);
                rowpages::flat_push(groups.take(i as int).filter(p), groups[i as int]);
            }
            if self.page_wanted(i, c, wanted) {
                let mut rows = rowpages::unpack_page_rows(&self.pages[i]);
                let ghost before = out.deep_view();
                let ghost more = rows.deep_view();
                assert(groups[i as int] == more);
                out.append(&mut rows);
                assert(out.deep_view() =~= before + more);
            }
            i += 1;
        }
        assert(groups.take(i as int) =~= groups);
        out
    }

    /// The rows that a filter lets through, up to a limit. A filter by equality on an indexed
    /// column looks only where its values stand.
    pub fn scan_filtered(
        &self,
        filter: &Option<RowPredicate>,
        limit: Option<usize>,
        cx: &Context,
    ) -> (r: Vec<Row>)
        requires
            self.wf(),
        ensures
            r.deep_view() == scanned(self@, filter.deep_view(), limit, cx@),
    {
        let asked: Option<(String, Vec<Vec<u8>>)> = match filter {
            Some(RowPredicate::Eq(c, v)) => {
                let mut list: Vec<Vec<u8>> = Vec::new();
                let copy = text::copy_bytes(v.as_slice());
                proof {
                    crate::row::bytes_model(copy);
                }
                list.push(copy);
                assert(list.deep_view() =~= seq![v@]);
                Some((c.clone(), list))
            },
            Some(RowPredicate::In(c, list)) => Some(
                (c.clone(), predicate::copy_byte_strings(list)),
            ),
            _ => None,
        };
        assert(asked.deep_view() == wanted_values(filter.deep_view()));
        match asked {
            Some(pair) => {
                let indexed = index::indexed_columns(&self.schema);
                if crate::assoc::has_name(&indexed, pair.0.as_str()) {
                    let found = match &self.overlay {
                        Some(rows) => self.staged_with_values(rows, pair.0.as_str(), &pair.1),
                        None => self.paged_with_values(pair.0.as_str(), &pair.1),
                    };
                    return filter_rows(&found, filter, limit, cx);
                }
            },
            None => {},
        }
        let rows = self.rows();
        filter_rows(&rows, filter, limit, cx)
    }
}

// ---------------------------------------------------------------------------------------------
// Laws
// ---------------------------------------------------------------------------------------------
/// Whether a value is one of those from the `at`-th on.
spec fn asked_for(value: Option<Seq<u8>>, wanted: Seq<Seq<u8>>, at: int) -> bool {
    exists|j: int| at <= j < wanted.len() && value == Some(#[trigger] wanted[j])
}

proof fn one_more_with_values(
    rows: Seq<RowModel>,
    x: RowModel,
    c: Seq<char>,
    wanted: Seq<Seq<u8>>,
    at: int,
)
    requires
        0 <= at,
        wanted.no_duplicates(),
    ensures
        with_values(rows.push(x), c, wanted, at).to_multiset() == (if asked_for(
            x.present(c),
            wanted,
            at,
        ) {
            with_values(rows, c, wanted, at).to_multiset().insert(x)
        } else {
            with_values(rows, c, wanted, at).to_multiset()
        }),
    decreases wanted.len() - at,
{
    if at < wanted.len() {
        reveal(Seq::filter);
        let p = has_fn(c, wanted[at]);
        let more = rows.push(x);
        assert(more.drop_last() =~= rows);
        let here = rows.filter(p);
        let rest = with_values(rows, c, wanted, at + 1);
        let rest_more = with_values(more, c, wanted, at + 1);
        one_more_with_values(rows, x, c, wanted, at + 1);
        vstd::seq_lib::lemma_multiset_commutative(here, rest);
        vstd::seq_lib::lemma_multiset_commutative(more.filter(p), rest_more);
        if x.present(c) == Some(wanted[at]) {
            vstd::seq_lib::to_multiset_build(here, x);
            assert(!asked_for(x.present(c), wanted, at + 1)) by {
                if asked_for(x.present(c), wanted, at + 1) {
                    let j = choose|j: int|
                        at + 1 <= j < wanted.len() && x.present(c) == Some(#[trigger] wanted[j]);
                    assert(wanted[j] == wanted[at]);
                }
            }
            assert(asked_for(x.present(c), wanted, at));
            assert(with_values(more, c, wanted, at).to_multiset() =~= with_values(
                rows,
                c,
                wanted,
                at,
            ).to_multiset().insert(x));
        } else {
            assert(asked_for(x.present(c), wanted, at) == asked_for(
                x.present(c),
                wanted,
                at + 1,
            )) by {
                if asked_for(x.present(c), wanted, at) {
                    let j = choose|j: int|
                        at <= j < wanted.len() && x.present(c) == Some(#[trigger] wanted[j]);
                    assert(j != at);
                }
            }
            assert(with_values(more, c, wanted, at).to_multiset() =~= if asked_for(
                x.present(c),
                wanted,
                at,
            ) {
                with_values(rows, c, wanted, at).to_multiset().insert(x)
            } else {
                with_values(rows, c, wanted, at).to_multiset()
            });
        }
    }
}

proof fn nothing_with_values(c: Seq<char>, wanted: Seq<Seq<u8>>, at: int)
    requires
        0 <= at,
    ensures
        with_values(Seq::empty(), c, wanted, at) == Seq::<RowModel>::empty(),
    decreases wanted.len() - at,
{
    if at < wanted.len() {
        reveal(Seq::filter);
        nothing_with_values(c, wanted, at + 1);
        assert(Seq::<RowModel>::empty().filter(has_fn(c, wanted[at])) =~= Seq::empty());
        assert(with_values(Seq::empty(), c, wanted, at) =~= Seq::<RowModel>::empty());
    }
}

/// Rows that are found value by value are the rows with one of the values.
proof fn found_by_value(
    rows: Seq<RowModel>,
    c: Seq<char>,
    wanted: Seq<Seq<u8>>,
    p: spec_fn(RowModel) -> bool,
)
    requires
        wanted.no_duplicates(),
        forall|r: RowModel| #[trigger] p(r) == asked_for(r.present(c), wanted, 0),
    ensures
        with_values(rows, c, wanted, 0).to_multiset() == rows.filter(p).to_multiset(),
    decreases rows.len(),
{
    reveal(Seq::filter);
    if rows.len() == 0 {
        assert(rows =~= Seq::empty());
        nothing_with_values(c, wanted, 0);
        assert(rows.filter(p) =~= Seq::empty());
    } else {
        let t = rows.drop_last();
        let x = rows.last();
        assert(t.push(x) =~= rows);
        found_by_value(t, c, wanted, p);
        one_more_with_values(t, x, c, wanted, 0);
        assert(p(x) == asked_for(x.present(c), wanted, 0));
        vstd::seq_lib::to_multiset_build(t.filter(p), x);
        assert(rows.filter(p) == if p(x) {
            t.filter(p).push(x)
        } else {
            t.filter(p)
        });
    }
}

proof fn with_values_pass(
    rows: Seq<RowModel>,
    c: Seq<char>,
    wanted: Seq<Seq<u8>>,
    p: spec_fn(RowModel) -> bool,
    at: int,
)
    requires
        0 <= at,
        forall|r: RowModel| #[trigger] p(r) == asked_for(r.present(c), wanted, 0),
    ensures
        with_values(rows, c, wanted, at).filter(p) == with_values(rows, c, wanted, at),
    decreases wanted.len() - at,
{
    if at < wanted.len() {
        let here = rows.filter(has_fn(c, wanted[at]));
        let rest = with_values(rows, c, wanted, at + 1);
        with_values_pass(rows, c, wanted, p, at + 1);
        Seq::filter_distributes_over_add(here, rest, p);
        assert forall|i: int| 0 <= i < here.len() implies p(#[trigger] here[i]) by {
            rows.lemma_filter_pred(has_fn(c, wanted[at]), i);
            assert(here[i].present(c) == Some(wanted[at]));
            assert(asked_for(here[i].present(c), wanted, 0));
        }
        all_pass(here, p);
    } else {
        reveal(Seq::filter);
        assert(with_values(rows, c, wanted, at).filter(p) =~= with_values(rows, c, wanted, at));
    }
}

proof fn all_pass(rows: Seq<RowModel>, p: spec_fn(RowModel) -> bool)
    requires
        forall|i: int| 0 <= i < rows.len() ==> p(#[trigger] rows[i]),
    ensures
        rows.filter(p) == rows,
    decreases rows.len(),
{
    reveal(Seq::filter);
    if rows.len() > 0 {
        let t = rows.drop_last();
        assert forall|i: int| 0 <= i < t.len() implies p(#[trigger] t[i]) by {
            assert(t[i] == rows[i]);
        }
        all_pass(t, p);
        assert(p(rows.last()));
        assert(t.push(rows.last()) =~= rows);
    } else {
        assert(rows.filter(p) =~= rows);
    }
}

proof fn none_pass(rows: Seq<RowModel>, p: spec_fn(RowModel) -> bool)
    requires
        forall|i: int| 0 <= i < rows.len() ==> !p(#[trigger] rows[i]),
    ensures
        rows.filter(p) == Seq::<RowModel>::empty(),
    decreases rows.len(),
{
    reveal(Seq::filter);
    if rows.len() > 0 {
        let t = rows.drop_last();
        assert forall|i: int| 0 <= i < t.len() implies !p(#[trigger] t[i]) by {
            assert(t[i] == rows[i]);
        }
        none_pass(t, p);
        assert(!p(rows.last()));
    } else {
        assert(rows.filter(p) =~= Seq::empty());
    }
}

/// The pages that hold none of the values have no row that passes.
proof fn found_by_page(
    groups: Seq<Seq<RowModel>>,
    c: Seq<char>,
    wanted: Seq<Seq<u8>>,
    p: spec_fn(RowModel) -> bool,
)
    requires
        forall|r: RowModel| #[trigger] p(r) == asked_for(r.present(c), wanted, 0),
    ensures
        rowpages::flat(groups.filter(page_has(c, wanted))).filter(p) == rowpages::flat(
            groups,
        ).filter(p),
    decreases groups.len(),
{
    let q = page_has(c, wanted);
    if groups.len() == 0 {
        reveal(Seq::filter);
        assert(groups.filter(q) =~= groups);
    } else {
        let t = groups.drop_last();
        let page = groups.last();
        found_by_page(t, c, wanted, p);
        assert(groups.filter(q) == if q(page) {
            t.filter(q).push(page)
        } else {
            t.filter(q)
        }) by {
            reveal(Seq::filter);
        }
        Seq::filter_distributes_over_add(rowpages::flat(t), page, p);
        if q(page) {
            rowpages::flat_push(t.filter(q), page);
            Seq::filter_distributes_over_add(rowpages::flat(t.filter(q)), page, p);
        } else {
            assert forall|i: int| 0 <= i < page.len() implies !p(#[trigger] page[i]) by {
                if p(page[i]) {
                    assert(asked_for(page[i].present(c), wanted, 0));
                    let j = choose|j: int|
                        0 <= j < wanted.len() && page[i].present(c) == Some(#[trigger] wanted[j]);
                    assert(index::any_holds(page, c, wanted[j]));
                }
            }
            none_pass(page, p);
            assert(rowpages::flat(t).filter(p) + Seq::<RowModel>::empty() =~= rowpages::flat(
                t,
            ).filter(p));
        }
    }
}

/// A scan with a limit finds the first rows of the scan without one.
pub proof fn a_limit_cuts_the_scan(
    t: TableModel,
    filter: Option<PredicateModel>,
    n: usize,
    cx: ContextModel,
)
    ensures
        ({
            let all = scanned(t, filter, None, cx);
            scanned(t, filter, Some(n), cx) == all.take(
                if n < all.len() {
                    n as int
                } else {
                    all.len() as int
                },
            )
        }),
{
    let all = scanned(t, filter, None, cx);
    assert(all.take(all.len() as int) =~= all);
}

/// Whether a filter asks for a value twice.
pub open spec fn asks_twice(filter: Option<PredicateModel>) -> bool {
    filter matches Some(PredicateModel::In(_, list)) && !list.no_duplicates()
}

/// A scan finds the rows that pass its filter, and no others, whether or not an index helps it:
/// in the order of the table where its rows stand on pages, and in some order where they are
/// staged.
pub proof fn an_index_changes_no_scan(
    t: TableModel,
    filter: Option<PredicateModel>,
    cx: ContextModel,
)
    requires
        !asks_twice(filter),
    ensures
        ({
            let all = scanned(t, filter, None, cx);
            let passing = t.rows().filter(passes_fn(filter, cx));
            &&& all.to_multiset() == passing.to_multiset()
            &&& t.overlay is None ==> all == passing
            &&& forall|i: int|
                0 <= i < all.len() ==> predicate::passes(filter, #[trigger] all[i], cx)
        }),
{
    let p = passes_fn(filter, cx);
    let all = scanned(t, filter, None, cx);
    assert forall|i: int| 0 <= i < all.len() implies predicate::passes(
        filter,
        #[trigger] all[i],
        cx,
    ) by {
        candidates(t, filter).lemma_filter_pred(p, i);
        assert(p(all[i]));
    }
    if let Some((c, wanted)) = wanted_values(filter) {
        if index::is_indexed(t.schema, c) {
            assert forall|r: RowModel| #[trigger] p(r) == asked_for(r.present(c), wanted, 0) by {
                let value = r.present(c);
                match filter {
                    Some(PredicateModel::Eq(_, v)) => {
                        if value == Some(v) {
                            assert(value == Some(wanted[0]));
                        }
                    },
                    Some(PredicateModel::In(_, list)) => {
                        if p(r) {
                            let j = choose|j: int| 0 <= j < list.len() && list[j] == value->0;
                            assert(value == Some(wanted[j]));
                        }
                    },
                    _ => {},
                }
            }
            match t.overlay {
                Some(rows) => {
                    assert(wanted.no_duplicates());
                    with_values_pass(rows, c, wanted, p, 0);
                    found_by_value(rows, c, wanted, p);
                },
                None => {
                    found_by_page(t.groups(), c, wanted, p);
                },
            }
        }
    }
}

} // verus!
