//! Rows packed into data pages, and unpacked again.
use crate::codec;
use crate::error;
use crate::error::{DbError, DbResult};
use crate::num;
use crate::page::{Page, PageHeader, PageModel, PageType};
use crate::row;
use crate::row::{Row, RowModel};
use vstd::prelude::*;

verus! {

pub const ROW_PAGE_HEADER_SIZE: usize = 8;

pub const ROW_PAGE_SIZE: usize = 16384;

/// The bytes `RWS1` at the start of a page of packed rows.
pub open spec fn row_page_magic() -> Seq<u8> {
    seq![0x52u8, 0x57u8, 0x53u8, 0x31u8]
}

/// How far rows from `from` on fit behind `cursor`: the first row that does not.
pub open spec fn fill(rows: Seq<Seq<u8>>, from: int, cursor: int) -> int
    decreases rows.len() - from,
{
    if 0 <= from < rows.len() && cursor + 4 + rows[from].len() <= ROW_PAGE_SIZE {
        fill(rows, from + 1, cursor + 4 + rows[from].len())
    } else {
        from
    }
}

/// Rows one after the other, each behind its length in four bytes.
pub open spec fn packed(rows: Seq<Seq<u8>>) -> Seq<u8>
    decreases rows.len(),
{
    if rows.len() == 0 {
        Seq::empty()
    } else {
        codec::le(rows[0].len(), 4) + rows[0] + packed(rows.subrange(1, rows.len() as int))
    }
}

pub open spec fn zeros(n: int) -> Seq<u8> {
    Seq::new(
        if n > 0 {
            n as nat
        } else {
            0
        },
        |i: int| 0u8,
    )
}

/// The data of a page that holds the given rows: magic, row count, rows, zeros to the page's end.
pub open spec fn row_page_data(rows: Seq<Seq<u8>>) -> Seq<u8> {
    row_page_magic() + codec::le(rows.len(), 4) + packed(rows) + zeros(
        ROW_PAGE_SIZE - 8 - packed(rows).len(),
    )
}

/// The header of a page of rows that is still to be written.
pub open spec fn row_header(number: int, count: nat) -> PageHeader {
    PageHeader {
        page_number: number as u32,
        page_type: PageType::Data,
        lsn: 0,
        prev_page: None,
        next_page: None,
        is_dirty: true,
        row_count: count as u32,
    }
}

pub open spec fn row_page(number: int, rows: Seq<Seq<u8>>) -> PageModel {
    PageModel {
        header: row_header(number, rows.len()),
        data: row_page_data(rows),
        size: ROW_PAGE_SIZE as nat,
    }
}

pub open spec fn oversized(row: Seq<u8>) -> bool {
    row.len() + 4 > ROW_PAGE_SIZE - 8
}

/// Each page takes the rows that fit into it before the next page begins.
pub open spec fn row_pages(first: int, rows: Seq<Seq<u8>>, from: int) -> Seq<PageModel>
    decreases rows.len() - from,
{
    if from < 0 || from >= rows.len() || fill(rows, from, 8) <= from {
        Seq::empty()
    } else {
        proof {
            fill_bounds(rows, from, 8);
        }
        seq![row_page(first, rows.subrange(from, fill(rows, from, 8)))] + row_pages(
            first + 1,
            rows,
            fill(rows, from, 8),
        )
    }
}

/// The first row that no page can hold.
pub open spec fn first_oversized(rows: Seq<Seq<u8>>, from: int) -> Option<int>
    decreases rows.len() - from,
{
    if from < 0 || from >= rows.len() {
        None
    } else if oversized(rows[from]) {
        Some(from)
    } else {
        first_oversized(rows, from + 1)
    }
}

pub open spec fn pack_outcome(first: int, rows: Seq<Seq<u8>>) -> Result<Seq<PageModel>, Seq<char>> {
    match first_oversized(rows, 0) {
        Some(i) => Err("Row size "@ + num::decimal(rows[i].len()) + " exceeds page capacity"@),
        None => if first + row_pages(first, rows, 0).len() > u32::MAX {
            Err(no_numbers())
        } else {
            Ok(row_pages(first, rows, 0))
        },
    }
}

pub open spec fn no_numbers() -> Seq<char> {
    "Table has no page numbers left"@
}

pub proof fn fill_bounds(rows: Seq<Seq<u8>>, from: int, cursor: int)
    requires
        0 <= from <= rows.len(),
        8 <= cursor <= ROW_PAGE_SIZE,
    ensures
        from <= fill(rows, from, cursor) <= rows.len(),
        from < rows.len() && cursor == 8 && !oversized(rows[from]) ==> from < fill(
            rows,
            from,
            cursor,
        ),
        cursor + packed(rows.subrange(from, fill(rows, from, cursor))).len() <= ROW_PAGE_SIZE,
        fill(rows, from, cursor) - from <= ROW_PAGE_SIZE,
        4 * (fill(rows, from, cursor) - from) <= ROW_PAGE_SIZE - cursor,
    decreases rows.len() - from,
{
    let end = fill(rows, from, cursor);
    if from < rows.len() && cursor + 4 + rows[from].len() <= ROW_PAGE_SIZE {
        fill_bounds(rows, from + 1, (cursor + 4 + rows[from].len()) as int);
        let part = rows.subrange(from, end);
        codec::le_len(rows[from].len(), 4);
        assert(part.subrange(1, part.len() as int) =~= rows.subrange(from + 1, end));
    } else {
        assert(rows.subrange(from, end) =~= Seq::empty());
    }
}

/// Packs encoded rows into pages numbered from `first_page_number` on.
pub fn pack_encoded(first_page_number: u32, encoded: &Vec<Vec<u8>>) -> (r: DbResult<Vec<Page>>)
    ensures
        error::outcome(r) == pack_outcome(first_page_number as int, encoded.deep_view()),
{
    let ghost rows = encoded.deep_view();
    let mut check: usize = 0;
    while check < encoded.len()
        invariant
            check <= encoded@.len(),
            rows == encoded.deep_view(),
            first_oversized(rows, check as int) == first_oversized(rows, 0),
            forall|j: int| 0 <= j < check ==> !oversized(#[trigger] rows[j]),
        decreases encoded@.len() - check,
    {
        proof {
            row::bytes_model(encoded@[check as int]);
        }
        let size: usize = encoded[check].len();
        assert(rows[check as int].len() == size);
        if size > ROW_PAGE_SIZE - ROW_PAGE_HEADER_SIZE - 4 {
            let digits = num::usize_text(size);
            return Err(
                DbError::new(error::cat3("Row size ", digits.as_str(), " exceeds page capacity")),
            );
        }
        check += 1;
    }
    let mut pages: Vec<Page> = Vec::new();
    let mut index: usize = 0;
    assert(pages.deep_view() + row_pages(first_page_number as int, rows, 0) =~= row_pages(
        first_page_number as int,
        rows,
        0,
    ));
    while index < encoded.len()
        invariant
            index <= encoded@.len(),
            rows == encoded.deep_view(),
            first_page_number + pages@.len() <= u32::MAX,
            first_oversized(rows, 0) is None,
            forall|j: int| 0 <= j < rows.len() ==> !oversized(#[trigger] rows[j]),
            pages.deep_view() + row_pages(first_page_number + pages@.len(), rows, index as int)
                == row_pages(first_page_number as int, rows, 0),
        decreases encoded@.len() - index,
    {
        proof {
            fill_bounds(rows, index as int, 8);
        }
        let end = fill_page(encoded, index);
        if pages.len() >= (u32::MAX - first_page_number) as usize {
            proof {
                let rest = row_pages(first_page_number + pages@.len(), rows, index as int);
                assert(rest.len() >= 1);
                assert(pages.deep_view().len() == pages@.len());
                assert((pages.deep_view() + rest).len() == pages@.len() + rest.len());
            }
            return Err(DbError::of("Table has no page numbers left"));
        }
        let number: u32 = first_page_number + pages.len() as u32;
        let page = make_row_page(number, encoded, index, end);
        let ghost before = pages.deep_view();
        let ghost shown = page@;
        pages.push(page);
        assert(pages.deep_view() =~= before.push(shown));
        assert(before.push(shown) + row_pages(number + 1, rows, end as int) =~= before + (
        seq![shown] + row_pages(number + 1, rows, end as int)));
        index = end;
    }
    assert(pages.deep_view() + Seq::<PageModel>::empty() =~= pages.deep_view());
    assert(pages.deep_view().len() == pages@.len());
    Ok(pages)
}

fn fill_page(encoded: &Vec<Vec<u8>>, from: usize) -> (end: usize)
    requires
        from <= encoded@.len(),
    ensures
        end == fill(encoded.deep_view(), from as int, 8),
        from <= end <= encoded@.len(),
{
    let ghost rows = encoded.deep_view();
    let mut index: usize = from;
    let mut cursor: usize = ROW_PAGE_HEADER_SIZE;
    while index < encoded.len()
        invariant
            from <= index <= encoded@.len(),
            rows == encoded.deep_view(),
            8 <= cursor <= ROW_PAGE_SIZE,
            fill(rows, index as int, cursor as int) == fill(rows, from as int, 8),
        decreases encoded@.len() - index,
    {
        proof {
            row::bytes_model(encoded@[index as int]);
        }
        let size: usize = encoded[index].len();
        assert(rows[index as int].len() == size);
        if size > ROW_PAGE_SIZE || cursor + 4 + size > ROW_PAGE_SIZE {
            return index;
        }
        cursor = cursor + 4 + size;
        index += 1;
    }
    index
}

fn make_row_page(number: u32, encoded: &Vec<Vec<u8>>, from: usize, end: usize) -> (r: Page)
    requires
        from < end <= encoded@.len(),
        end == fill(encoded.deep_view(), from as int, 8),
    ensures
        r@ == row_page(number as int, encoded.deep_view().subrange(from as int, end as int)),
{
    let ghost part = encoded.deep_view().subrange(from as int, end as int);
    proof {
        fill_bounds(encoded.deep_view(), from as int, 8);
        codec::le_len(part.len(), 4);
    }
    let mut data: Vec<u8> = Vec::new();
    data.push(0x52);
    data.push(0x57);
    data.push(0x53);
    data.push(0x31);
    assert(data@ =~= row_page_magic());
    let count: u32 = (end - from) as u32;
    codec::put_le(&mut data, count as u64, 4);
    let ghost head = row_page_magic() + codec::le(part.len(), 4);
    let mut index: usize = from;
    assert(part.subrange(0, part.len() as int) =~= part);
    while index < end
        invariant
            from <= index <= end <= encoded@.len(),
            part == encoded.deep_view().subrange(from as int, end as int),
            head.len() == 8,
            8 + packed(part).len() <= ROW_PAGE_SIZE,
            data@ + packed(part.subrange(index - from, part.len() as int)) == head + packed(part),
        decreases end - index,
    {
        let ghost before = data@;
        let ghost rest = part.subrange(index - from, part.len() as int);
        proof {
            row::bytes_model(encoded@[index as int]);
            assert(rest[0] == encoded@[index as int]@);
            assert(rest.subrange(1, rest.len() as int) =~= part.subrange(
                index - from + 1,
                part.len() as int,
            ));
            codec::le_len(rest[0].len(), 4);
        }
        let size: usize = encoded[index].len();
        codec::put_le(&mut data, size as u64, 4);
        data.extend_from_slice(encoded[index].as_slice());
        index += 1;
        assert(data@ + packed(part.subrange(index - from, part.len() as int)) =~= before + packed(
            rest,
        ));
    }
    assert(part.subrange(index - from, part.len() as int) =~= Seq::empty());
    assert(data@ =~= head + packed(part));
    let ghost used = data@;
    while data.len() < ROW_PAGE_SIZE
        invariant
            used.len() <= data@.len() <= ROW_PAGE_SIZE,
            data@ == used + zeros(data@.len() - used.len()),
        decreases ROW_PAGE_SIZE - data@.len(),
    {
        data.push(0);
        assert(data@ =~= used + zeros(data@.len() - used.len()));
    }
    assert(data@ =~= row_page_data(part));
    Page {
        header: PageHeader {
            page_number: number,
            page_type: PageType::Data,
            lsn: 0,
            prev_page: None,
            next_page: None,
            is_dirty: true,
            row_count: count,
        },
        data: data,
        size: ROW_PAGE_SIZE,
    }
}

// ---------------------------------------------------------------------------------------------
// Unpacking
// ---------------------------------------------------------------------------------------------
/// Up to `count` packed rows from a position on; rows that cannot be read are left out.
pub open spec fn read_packed(data: Seq<u8>, at: int, count: nat) -> Seq<RowModel>
    decreases count,
{
    if count == 0 || at < 0 || at + 4 > data.len() {
        Seq::empty()
    } else {
        let n = codec::from_le(data.subrange(at, at + 4)) as int;
        if at + 4 + n > data.len() {
            Seq::empty()
        } else {
            let here = match row::decoded_row(data.subrange(at + 4, at + 4 + n)) {
                Some(found) => seq![found],
                None => Seq::empty(),
            };
            here + read_packed(data, at + 4 + n, (count - 1) as nat)
        }
    }
}

/// The rows of a page; a page without the magic holds one row, and one that breaks off behind it
/// holds none.
pub open spec fn unpacked(p: PageModel) -> Seq<RowModel> {
    if p.header.row_count == 0 {
        Seq::empty()
    } else if p.data.len() >= 4 && p.data.subrange(0, 4) == row_page_magic() {
        if p.data.len() < 8 {
            Seq::empty()
        } else {
            read_packed(p.data, 8, codec::from_le(p.data.subrange(4, 8)))
        }
    } else {
        match row::decoded_row(p.data) {
            Some(found) => seq![found],
            None => Seq::empty(),
        }
    }
}

pub fn unpack_page_rows(page: &Page) -> (r: Vec<Row>)
    ensures
        r.deep_view() == unpacked(page@),
{
    let mut rows: Vec<Row> = Vec::new();
    if page.header.row_count == 0 {
        assert(rows.deep_view() =~= Seq::empty());
        return rows;
    }
    let data = page.data.as_slice();
    let magic = data.len() >= 4 && data[0] == 0x52 && data[1] == 0x57 && data[2] == 0x53 && data[3]
        == 0x31;
    if magic {
        assert(data@.subrange(0, 4) =~= row_page_magic());
    } else {
        assert(data@.len() >= 4 ==> data@.subrange(0, 4) != row_page_magic()) by {
            if data@.len() >= 4 {
                assert(data@.subrange(0, 4)[0] == data@[0]);
                assert(data@.subrange(0, 4)[1] == data@[1]);
                assert(data@.subrange(0, 4)[2] == data@[2]);
                assert(data@.subrange(0, 4)[3] == data@[3]);
            }
        }
        match Row::decode(data) {
            Some(found) => {
                rows.push(found);
                assert(rows.deep_view() =~= seq![found@]);
            },
            None => {
                assert(rows.deep_view() =~= Seq::empty());
            },
        }
        return rows;
    }
    if data.len() < 8 {
        assert(rows.deep_view() =~= Seq::empty());
        return rows;
    }
    let count = codec::get_le(data, 4, 4);
    let ghost whole = read_packed(data@, 8, count as nat);
    let mut cursor: usize = ROW_PAGE_HEADER_SIZE;
    let mut left: u64 = count;
    assert(rows.deep_view() + whole =~= whole);
    while left > 0
        invariant
            cursor <= data@.len() == data.len(),
            whole == rows.deep_view() + read_packed(data@, cursor as int, left as nat),
            data@ == page.data@,
            whole == unpacked(page@),
        decreases left,
    {
        if data.len() - cursor < 4 {
            assert(whole =~= rows.deep_view());
            return rows;
        }
        let n = codec::get_le(data, cursor, 4);
        if n > (data.len() - cursor - 4) as u64 {
            assert(whole =~= rows.deep_view());
            return rows;
        }
        let size: usize = n as usize;
        let part = codec::sub_bytes(data, cursor + 4, cursor + 4 + size);
        let ghost rest = read_packed(data@, cursor + 4 + size, (left - 1) as nat);
        let ghost before = rows.deep_view();
        match Row::decode(part.as_slice()) {
            Some(found) => {
                rows.push(found);
                assert(rows.deep_view() =~= before.push(found@));
                assert(before + (seq![found@] + rest) =~= before.push(found@) + rest);
            },
            None => {
                assert(before + (Seq::<RowModel>::empty() + rest) =~= before + rest);
            },
        }
        cursor = cursor + 4 + size;
        left -= 1;
    }
    assert(whole =~= rows.deep_view());
    rows
}

// ---------------------------------------------------------------------------------------------
// What was packed comes out
// ---------------------------------------------------------------------------------------------
/// Whether each byte string encodes the row at its place.
pub open spec fn encodes(rows: Seq<Seq<u8>>, models: Seq<RowModel>) -> bool {
    rows.len() == models.len() && forall|i: int|
        0 <= i < rows.len() ==> row::decoded_row(#[trigger] rows[i]) == Some(models[i])
}

proof fn read_back(
    before: Seq<u8>,
    rows: Seq<Seq<u8>>,
    models: Seq<RowModel>,
    after: Seq<u8>,
)
    requires
        encodes(rows, models),
        forall|i: int| 0 <= i < rows.len() ==> (#[trigger] rows[i]).len() < codec::pow256(4),
    ensures
        read_packed(before + packed(rows) + after, before.len() as int, rows.len()) == models,
    decreases rows.len(),
{
    let data = before + packed(rows) + after;
    let at = before.len() as int;
    if rows.len() > 0 {
        let n = rows[0].len();
        let rest = rows.subrange(1, rows.len() as int);
        let rest_models = models.subrange(1, models.len() as int);
        assert(encodes(rest, rest_models)) by {
            assert forall|i: int| 0 <= i < rest.len() implies row::decoded_row(#[trigger] rest[i])
                == Some(rest_models[i]) by {
                assert(rest[i] == rows[i + 1]);
            }
        }
        codec::le_len(n, 4);
        codec::from_le_le(n, 4);
        assert(data.subrange(at, at + 4) =~= codec::le(n, 4));
        assert(data.subrange(at + 4, at + 4 + n) =~= rows[0]);
        let next = before + codec::le(n, 4) + rows[0];
        assert(data =~= next + packed(rest) + after);
        assert forall|i: int| 0 <= i < rest.len() implies (#[trigger] rest[i]).len()
            < codec::pow256(4) by {
            assert(rest[i] == rows[i + 1]);
        }
        read_back(next, rest, rest_models, after);
        assert(row::decoded_row(rows[0]) == Some(models[0]));
        assert(seq![models[0]] + rest_models =~= models);
    } else {
        assert(models =~= Seq::empty());
    }
}

/// The rows packed into one page are the rows unpacked from it.
proof fn unpacked_row_page(number: int, rows: Seq<Seq<u8>>, models: Seq<RowModel>)
    requires
        encodes(rows, models),
        0 < rows.len() <= ROW_PAGE_SIZE,
        forall|i: int| 0 <= i < rows.len() ==> (#[trigger] rows[i]).len() < codec::pow256(4),
    ensures
        unpacked(row_page(number, rows)) == models,
{
    let p = row_page(number, rows);
    codec::pow256_values();
    codec::le_len(rows.len(), 4);
    codec::from_le_le(rows.len(), 4);
    let head = row_page_magic() + codec::le(rows.len(), 4);
    assert(p.data.subrange(0, 4) =~= row_page_magic());
    assert(p.data.subrange(4, 8) =~= codec::le(rows.len(), 4));
    let after = zeros(ROW_PAGE_SIZE - 8 - packed(rows).len());
    assert(p.data =~= head + packed(rows) + after);
    read_back(head, rows, models, after);
}

/// The models of rows without their identifiers, which pages do not keep.
pub open spec fn anonymous(rows: Seq<RowModel>) -> Seq<RowModel> {
    rows.map_values(|m: RowModel| RowModel { row_id: 0, ..m })
}

/// The bytes of rows.
pub open spec fn encodings(rows: Seq<RowModel>) -> Seq<Seq<u8>> {
    rows.map_values(|m: RowModel| row::encoded(m))
}

/// The rows from `from` on, as pages take them.
pub open spec fn groups_from(rows: Seq<RowModel>, from: int) -> Seq<Seq<RowModel>>
    decreases rows.len() - from,
{
    let end = fill(encodings(rows), from, 8);
    if from < 0 || from >= rows.len() || end <= from {
        Seq::empty()
    } else {
        proof {
            fill_bounds(encodings(rows), from, 8);
        }
        seq![anonymous(rows).subrange(from, end)] + groups_from(rows, end)
    }
}

/// The rows that each page holds, or why they cannot be packed.
pub open spec fn groups(rows: Seq<RowModel>) -> Result<Seq<Seq<RowModel>>, Seq<char>> {
    match first_oversized(encodings(rows), 0) {
        Some(i) => Err(
            "Row size "@ + num::decimal(encodings(rows)[i].len()) + " exceeds page capacity"@,
        ),
        None => Ok(groups_from(rows, 0)),
    }
}

/// The rows of all groups, one group after the other.
pub open spec fn flat(parts: Seq<Seq<RowModel>>) -> Seq<RowModel>
    decreases parts.len(),
{
    if parts.len() == 0 {
        Seq::empty()
    } else {
        flat(parts.drop_last()) + parts.last()
    }
}

pub proof fn flat_push(parts: Seq<Seq<RowModel>>, part: Seq<RowModel>)
    ensures
        flat(parts.push(part)) == flat(parts) + part,
{
    assert(parts.push(part).drop_last() =~= parts);
}

pub proof fn flat_concat(a: Seq<Seq<RowModel>>, b: Seq<Seq<RowModel>>)
    ensures
        flat(a + b) == flat(a) + flat(b),
    decreases b.len(),
{
    if b.len() == 0 {
        assert(a + b =~= a);
        assert(flat(a) + flat(b) =~= flat(a));
    } else {
        flat_concat(a, b.drop_last());
        assert((a + b).drop_last() =~= a + b.drop_last());
        assert((flat(a) + flat(b.drop_last())) + b.last() =~= flat(a) + flat(b));
    }
}

/// What pages take, taken together, is the rows.
pub proof fn groups_flat(rows: Seq<RowModel>, from: int)
    requires
        0 <= from <= rows.len(),
        forall|i: int| 0 <= i < rows.len() ==> !oversized(#[trigger] encodings(rows)[i]),
    ensures
        flat(groups_from(rows, from)) == anonymous(rows).subrange(from, rows.len() as int),
    decreases rows.len() - from,
{
    let e = encodings(rows);
    if from < rows.len() {
        fill_bounds(e, from, 8);
        assert(!oversized(e[from]));
        let end = fill(e, from, 8);
        groups_flat(rows, end);
        flat_concat(seq![anonymous(rows).subrange(from, end)], groups_from(rows, end));
        let one = seq![anonymous(rows).subrange(from, end)];
        assert(one.drop_last() =~= Seq::empty());
        assert(flat(one.drop_last()) =~= Seq::empty());
        assert(flat(one) =~= one[0]);
        assert(one[0] + anonymous(rows).subrange(end, rows.len() as int) =~= anonymous(
            rows,
        ).subrange(from, rows.len() as int));
    } else {
        assert(anonymous(rows).subrange(from, rows.len() as int) =~= Seq::empty());
    }
}

/// The rows of each page.
pub open spec fn page_rows(pages: Seq<PageModel>) -> Seq<Seq<RowModel>> {
    pages.map_values(|p: PageModel| unpacked(p))
}

/// A page by its header, the length of its data, and its rows.
#[verifier::ext_equal]
pub struct RowPageModel {
    pub header: PageHeader,
    pub length: nat,
    pub rows: Seq<RowModel>,
}

/// Pages by their headers, lengths and rows.
pub open spec fn contents(pages: Seq<PageModel>) -> Seq<RowPageModel> {
    pages.map_values(
        |p: PageModel|
            RowPageModel { header: p.header, length: p.data.len(), rows: unpacked(p) },
    )
}

pub open spec fn rows_of(pages: Seq<RowPageModel>) -> Seq<Seq<RowModel>> {
    pages.map_values(|p: RowPageModel| p.rows)
}

/// Groups of rows on pages numbered from `first` on.
pub open spec fn laid_out(first: int, parts: Seq<Seq<RowModel>>) -> Seq<RowPageModel> {
    Seq::new(
        parts.len(),
        |i: int|
            RowPageModel {
                header: row_header(first + i, parts[i].len()),
                length: ROW_PAGE_SIZE as nat,
                rows: parts[i],
            },
    )
}

/// The pages that rows take from a number on, or why they cannot be packed.
pub open spec fn pages_for(first: int, rows: Seq<RowModel>) -> Result<Seq<RowPageModel>, Seq<char>> {
    match groups(rows) {
        Err(e) => Err(e),
        Ok(parts) => if first + parts.len() > u32::MAX {
            Err(no_numbers())
        } else {
            Ok(laid_out(first, parts))
        },
    }
}

/// Whether the numbers of pages rise and stay below the next number.
pub open spec fn in_order(pages: Seq<RowPageModel>, next: int) -> bool {
    &&& forall|i: int, j: int|
        0 <= i < j < pages.len() ==> (#[trigger] pages[i]).header.page_number < (
        #[trigger] pages[j]).header.page_number
    &&& forall|i: int| 0 <= i < pages.len() ==> (#[trigger] pages[i]).header.page_number < next
}

/// The number behind those listed: one more than the largest of them.
pub open spec fn number_behind(listed: Seq<u32>) -> u32
    decreases listed.len(),
{
    if listed.len() == 0 {
        0
    } else {
        let before = number_behind(listed.drop_last());
        let here = listed.last().saturating_add(1);
        if here > before {
            here
        } else {
            before
        }
    }
}

pub fn next_number(listed: &Vec<u32>) -> (r: u32)
    ensures
        r == number_behind(listed@),
{
    let mut r: u32 = 0;
    let mut i: usize = 0;
    while i < listed.len()
        invariant
            i <= listed@.len(),
            r == number_behind(listed@.take(i as int)),
        decreases listed@.len() - i,
    {
        assert(listed@.take(i + 1).drop_last() =~= listed@.take(i as int));
        let here: u32 = listed[i].saturating_add(1);
        if here > r {
            r = here;
        }
        i += 1;
    }
    assert(listed@.take(i as int) =~= listed@);
    r
}

/// Whether the numbers of pages rise and stay below the next number.
pub fn pages_in_order(pages: &Vec<Page>, next: u32) -> (r: bool)
    ensures
        r == in_order(contents(pages.deep_view()), next as int),
{
    let ghost all = contents(pages.deep_view());
    let mut i: usize = 0;
    while i < pages.len()
        invariant
            i <= pages@.len(),
            all == contents(pages.deep_view()),
            in_order(all.take(i as int), next as int),
        decreases pages@.len() - i,
    {
        assert(all[i as int].header == pages@[i as int].header);
        assert(all.len() == pages@.len());
        if pages[i].header.page_number >= next {
            return false;
        }
        if i > 0 {
            assert(all[i - 1].header == pages@[i - 1].header);
            assert(all.take(i as int)[i - 1] == all[i - 1]);
            if pages[i - 1].header.page_number >= pages[i].header.page_number {
                return false;
            }
        }
        proof {
            let more = all.take(i + 1);
            assert forall|a: int, b: int| 0 <= a < b < more.len() implies (
            #[trigger] more[a]).header.page_number < (#[trigger] more[b]).header.page_number by {
                assert(more[a] == all.take(i as int)[a]);
                if b < i {
                    assert(more[b] == all.take(i as int)[b]);
                } else if a < i - 1 {
                    assert(all.take(i as int)[a].header.page_number < all.take(
                        i as int,
                    )[i - 1].header.page_number);
                }
            }
            assert forall|a: int| 0 <= a < more.len() implies (
            #[trigger] more[a]).header.page_number < next by {
                if a < i {
                    assert(more[a] == all.take(i as int)[a]);
                }
            }
        }
        i += 1;
    }
    assert(all.take(i as int) =~= all);
    true
}

pub proof fn contents_rows(pages: Seq<PageModel>)
    ensures
        rows_of(contents(pages)) == page_rows(pages),
{
    assert(rows_of(contents(pages)) =~= page_rows(pages));
}

pub proof fn laid_out_rows(first: int, parts: Seq<Seq<RowModel>>)
    ensures
        rows_of(laid_out(first, parts)) == parts,
{
    assert(rows_of(laid_out(first, parts)) =~= parts);
}

/// There are no more pages than numbers for them.
pub proof fn in_order_len(pages: Seq<RowPageModel>, next: int)
    requires
        0 <= next,
        in_order(pages, next),
    ensures
        pages.len() <= next,
    decreases pages.len(),
{
    if pages.len() > 0 {
        let rest = pages.drop_last();
        assert forall|i: int| 0 <= i < rest.len() implies (#[trigger] rest[i]).header.page_number
            < pages.last().header.page_number by {
            assert(rest[i] == pages[i]);
        }
        in_order_len(rest, pages.last().header.page_number as int);
    }
}

/// Pages that are laid out behind others keep the numbers in order.
pub proof fn laid_out_in_order(pages: Seq<RowPageModel>, next: int, parts: Seq<Seq<RowModel>>)
    requires
        0 <= next,
        in_order(pages, next),
        next + parts.len() <= u32::MAX,
    ensures
        in_order(pages + laid_out(next, parts), next + parts.len()),
{
    let all = pages + laid_out(next, parts);
    assert forall|i: int| 0 <= i < all.len() implies (#[trigger] all[i]).header.page_number < next
        + parts.len() && (i >= pages.len() ==> all[i].header.page_number == next + i
        - pages.len()) && (i < pages.len() ==> all[i] == pages[i]) by {
        if i >= pages.len() {
            assert(all[i] == laid_out(next, parts)[i - pages.len()]);
        } else {
            assert(all[i] == pages[i]);
        }
    }
}

proof fn pages_hold_groups(first: int, rows: Seq<RowModel>, from: int)
    requires
        0 <= from <= rows.len(),
        encodes(encodings(rows), anonymous(rows)),
        forall|i: int| 0 <= i < rows.len() ==> !oversized(#[trigger] encodings(rows)[i]),
    ensures
        page_rows(row_pages(first, encodings(rows), from)) == groups_from(rows, from),
        contents(row_pages(first, encodings(rows), from)) == laid_out(first, groups_from(rows, from)),
    decreases rows.len() - from,
{
    let e = encodings(rows);
    let models = anonymous(rows);
    let pages = row_pages(first, e, from);
    if from < rows.len() {
        fill_bounds(e, from, 8);
        assert(!oversized(e[from]));
        let end = fill(e, from, 8);
        let part = e.subrange(from, end);
        let part_models = models.subrange(from, end);
        codec::pow256_values();
        assert(encodes(part, part_models)) by {
            assert forall|i: int| 0 <= i < part.len() implies row::decoded_row(#[trigger] part[i])
                == Some(part_models[i]) by {
                assert(part[i] == e[from + i]);
            }
        }
        assert forall|i: int| 0 <= i < part.len() implies (#[trigger] part[i]).len()
            < codec::pow256(4) by {
            assert(part[i] == e[from + i]);
        }
        unpacked_row_page(first, part, part_models);
        codec::le_len(part.len(), 4);
        assert(row_page_data(part).len() == ROW_PAGE_SIZE);
        pages_hold_groups(first + 1, rows, end);
        let rest = row_pages(first + 1, e, end);
        assert(page_rows(pages) =~= seq![part_models] + page_rows(rest));
        let target = laid_out(first, groups_from(rows, from));
        assert(contents(pages).len() == target.len());
        assert forall|i: int| 0 <= i < target.len() implies contents(pages)[i] == target[i] by {
            if i > 0 {
                assert(pages[i] == rest[i - 1]);
                assert(contents(rest)[i - 1] == laid_out(first + 1, groups_from(rows, end))[i - 1]);
                assert(groups_from(rows, from)[i] == groups_from(rows, end)[i - 1]);
            }
        }
        assert(contents(pages) =~= target);
    } else {
        assert(page_rows(pages) =~= Seq::empty());
        assert(contents(pages) =~= laid_out(first, groups_from(rows, from)));
    }
}

/// Packs rows into pages. What is packed comes out again; a row that no page can hold is refused,
/// and so are more pages than there are numbers for.
pub fn pack_row_pages(first_page_number: u32, rows: &[Row]) -> (r: DbResult<Vec<Page>>)
    ensures
        error::outcome(r) == pack_outcome(first_page_number as int, encodings(rows.deep_view())),
        match r {
            Err(e) => pages_for(first_page_number as int, rows.deep_view()) == Err::<
                Seq<RowPageModel>,
                Seq<char>,
            >(e.message@),
            Ok(pages) => {
                let found = contents(pages.deep_view());
                &&& pages_for(first_page_number as int, rows.deep_view()) == Ok::<
                    Seq<RowPageModel>,
                    Seq<char>,
                >(found)
                &&& found == laid_out(first_page_number as int, page_rows(pages.deep_view()))
                &&& flat(page_rows(pages.deep_view())) == anonymous(rows.deep_view())
                &&& first_page_number + pages@.len() <= u32::MAX
            },
        },
{
    let mut encoded: Vec<Vec<u8>> = Vec::new();
    let mut i: usize = 0;
    let ghost given = rows.deep_view();
    let ghost models = anonymous(given);
    while i < rows.len()
        invariant
            i <= rows@.len(),
            encoded@.len() == i,
            given == rows.deep_view(),
            models == anonymous(given),
            forall|j: int|
                0 <= j < i ==> row::decoded_row((#[trigger] encoded@[j])@) == Some(models[j])
                    && encoded@[j]@ == row::encoded(given[j]),
        decreases rows@.len() - i,
    {
        let bytes = rows[i].encode();
        encoded.push(bytes);
        i += 1;
    }
    proof {
        assert forall|j: int| 0 <= j < encoded@.len() implies row::decoded_row(
            #[trigger] encoded.deep_view()[j],
        ) == Some(models[j]) && encoded.deep_view()[j] == encodings(given)[j] by {
            row::bytes_model(encoded@[j]);
            assert(encoded.deep_view()[j] == encoded@[j]@);
        }
        assert(encoded.deep_view() =~= encodings(given));
    }
    let r = pack_encoded(first_page_number, &encoded);
    proof {
        let e = encoded.deep_view();
        if first_oversized(e, 0) is None {
            no_oversized(e, 0);
            pages_hold_groups(first_page_number as int, given, 0);
            groups_flat(given, 0);
            assert(models.subrange(0, models.len() as int) =~= models);
            let packed_pages = row_pages(first_page_number as int, e, 0);
            assert(page_rows(packed_pages).len() == packed_pages.len());
        }
    }
    r
}

pub proof fn no_oversized(rows: Seq<Seq<u8>>, from: int)
    requires
        0 <= from,
        first_oversized(rows, from) is None,
    ensures
        forall|i: int| from <= i < rows.len() ==> !oversized(#[trigger] rows[i]),
    decreases rows.len() - from,
{
    if from < rows.len() {
        no_oversized(rows, from + 1);
    }
}

} // verus!
