//! Pages on disk: where a page stands in its table's segment file, and what is read there.
use crate::codec;
use crate::error;
use crate::error::{DbError, DbResult};
use crate::num;
use crate::page;
use crate::page::{Page, PageModel};
use crate::search;
use crate::text;
use vstd::prelude::*;

verus! {

pub struct DiskManager {
    pub data_dir: String,
    pub page_size: usize,
}

/// The bytes that a page takes in a segment file.
pub open spec fn record_bytes(page_size: nat) -> nat {
    page_size + 57
}

pub open spec fn truncated(table: Seq<char>) -> Seq<char> {
    "Page segment for table '"@ + table + "' is truncated"@
}

pub open spec fn oversized(table: Seq<char>) -> Seq<char> {
    "Page segment for table '"@ + table + "' has too many pages"@
}

pub open spec fn corruption(table: Seq<char>, number: u32, reason: Seq<char>) -> Seq<char> {
    "Page corruption in table '"@ + table + "' page "@ + num::decimal(number as nat) + " ("@
        + reason + ")"@
}

fn corruption_error(table: &str, number: u32, reason: &str) -> (r: DbError)
    ensures
        r.message@ == corruption(table@, number, reason@),
{
    let n = num::u64_text(number as u64);
    DbError::new(
        error::cat7(
            "Page corruption in table '",
            table,
            "' page ",
            n.as_str(),
            " (",
            reason,
            ")",
        ),
    )
}

pub open spec fn all_zero(b: Seq<u8>) -> bool {
    forall|i: int| 0 <= i < b.len() ==> b[i] == 0
}

/// The page that a record holds. A record of zeros holds none.
pub open spec fn page_in_record(table: Seq<char>, number: u32, b: Seq<u8>) -> Result<
    Option<PageModel>,
    Seq<char>,
> {
    if all_zero(b) {
        Ok(None)
    } else {
        match page::decoded_page(b) {
            None => Err(corruption(table, number, "checksum or format invalid"@)),
            Some(p) => if p.header.page_number != number {
                Err(
                    corruption(
                        table,
                        number,
                        "stored page number "@ + num::decimal(p.header.page_number as nat),
                    ),
                )
            } else {
                Ok(Some(p))
            },
        }
    }
}

/// The numbers of the first pages of a segment file.
pub open spec fn listing(count: nat) -> Seq<u32> {
    Seq::new(count, |i: int| i as u32)
}

/// What writing pages from the `at`-th on puts where, up to the first page of a wrong size.
pub open spec fn writes_from(
    pages: Seq<PageModel>,
    record: nat,
    at: int,
    done: Seq<(u64, Seq<u8>)>,
) -> (Seq<(u64, Seq<u8>)>, Result<(), Seq<char>>)
    decreases pages.len() - at,
{
    if at < 0 || at >= pages.len() {
        (done, Ok(()))
    } else {
        let p = pages[at];
        let bytes = page::page_bytes(p.header, p.data);
        if bytes.len() != record {
            (
                done,
                Err(
                    "Page "@ + num::decimal(p.header.page_number as nat)
                        + " has invalid encoded size"@,
                ),
            )
        } else {
            writes_from(
                pages,
                record,
                at + 1,
                done.push(((p.header.page_number * record) as u64, bytes)),
            )
        }
    }
}

/// The bytes to put into a segment file, each with its place.
pub struct SegmentWrites {
    pub writes: Vec<(u64, Vec<u8>)>,
    pub outcome: DbResult<()>,
}

pub open spec fn write_models(list: Seq<(u64, Vec<u8>)>) -> Seq<(u64, Seq<u8>)> {
    list.map_values(|e: (u64, Vec<u8>)| (e.0, e.1@))
}

/// The name of the file that holds a page where a table has no segment file.
pub open spec fn page_file(number: u32) -> Seq<char> {
    "page_"@ + num::padded(number as nat, 8) + ".bin"@
}

pub fn page_file_name(number: u32) -> (r: String)
    ensures
        r@ == page_file(number),
{
    let n = num::padded_text(number as u64, 8);
    error::cat3("page_", n.as_str(), ".bin")
}

/// The page that a file's name stands for.
pub open spec fn page_file_number(name: Seq<char>) -> Option<nat> {
    if search::starts_with(name, "page_"@) && search::ends_with(name, ".bin"@) && name.len() >= 9 {
        num::parsed(name.subrange(5, name.len() - 4), u32::MAX as nat)
    } else {
        None
    }
}

fn number_in_name(name: &str) -> (r: Option<u32>)
    ensures
        r is Some == page_file_number(name@) is Some,
        r matches Some(n) ==> page_file_number(name@) == Some(n as nat),
{
    let c = text::chars_of(name);
    if !search::text_starts_with(name, "page_") || !search::text_ends_with(name, ".bin") || c.len()
        < 9 {
        return None;
    }
    let digits = text::copy_chars(&c, 5, c.len() - 4);
    match num::parse_up_to(&digits, u32::MAX as u64) {
        Some(n) => Some(n as u32),
        None => None,
    }
}

/// The numbers of the pages that files stand for, among the first `n`.
pub open spec fn file_numbers(names: Seq<Seq<char>>, n: int) -> Seq<u32>
    decreases n,
{
    if n <= 0 || n > names.len() {
        Seq::empty()
    } else {
        match page_file_number(names[n - 1]) {
            Some(k) => file_numbers(names, n - 1).push(k as u32),
            None => file_numbers(names, n - 1),
        }
    }
}

pub open spec fn rising(s: Seq<u32>) -> bool {
    forall|i: int, j: int| #![trigger s[i], s[j]] 0 <= i <= j < s.len() ==> s[i] <= s[j]
}

fn insert_rising(list: &mut Vec<u32>, n: u32)
    requires
        rising(old(list)@),
    ensures
        rising(final(list)@),
        final(list)@.to_multiset() == old(list)@.push(n).to_multiset(),
{
    let ghost before = list@;
    let mut p: usize = list.len();
    while p > 0 && list[p - 1] > n
        invariant
            p <= list@.len(),
            list@ == before,
            rising(before),
            forall|k: int| p <= k < before.len() ==> before[k] > n,
        decreases p,
    {
        p -= 1;
    }
    list.insert(p, n);
    proof {
        let after = before.insert(p as int, n);
        assert forall|i: int, j: int|
            #![trigger after[i], after[j]]
            0 <= i <= j < after.len() implies after[i] <= after[j] by {
            let i0 = if i < p {
                i
            } else {
                i - 1
            };
            let j0 = if j < p {
                j
            } else {
                j - 1
            };
            if i != p {
                assert(after[i] == before[i0]);
            }
            if j != p {
                assert(after[j] == before[j0]);
            }
            if i < p && p == j && p > 0 {
                assert(before[i] <= before[p - 1]);
            }
        }
        broadcast use vstd::seq_lib::group_to_multiset_ensures;

    }
}

impl DiskManager {
    pub fn new(data_dir: String, page_size: usize) -> (r: Self)
        ensures
            r.data_dir@ == data_dir@,
            r.page_size == page_size,
    {
        DiskManager { data_dir: data_dir, page_size: page_size }
    }

    /// Whether every place of a segment file can be counted.
    pub open spec fn wf(self) -> bool {
        record_bytes(self.page_size as nat) < 0x1_0000_0000
    }

    /// Whether every place of a segment file can be counted.
    pub fn is_usable(&self) -> (r: bool)
        ensures
            r == self.wf(),
    {
        self.page_size < 4294967239
    }

    fn record_size(&self) -> (r: u64)
        requires
            self.wf(),
        ensures
            r == record_bytes(self.page_size as nat),
            57 <= r < 0x1_0000_0000,
    {
        self.page_size as u64 + 57
    }

    /// Where a page stands in a segment file of a length. A page behind the end has no place.
    pub fn page_place(&self, table_name: &str, page_number: u32, length: u64) -> (r: DbResult<
        Option<u64>,
    >)
        requires
            self.wf(),
        ensures
            ({
                let record = record_bytes(self.page_size as nat);
                match r {
                    Err(e) => length as nat % record != 0 && e.message@ == truncated(table_name@),
                    Ok(None) => length as nat % record == 0 && length < page_number * record
                        + record,
                    Ok(Some(at)) => length as nat % record == 0 && length >= page_number * record
                        + record && at == page_number * record,
                }
            }),
    {
        let record = self.record_size();
        if length % record != 0 {
            return Err(
                DbError::new(
                    error::cat3("Page segment for table '", table_name, "' is truncated"),
                ),
            );
        }
        proof {
            place_is_counted(page_number, record);
        }
        let offset: u64 = (page_number as u64) * record;
        if length >= record && length - record >= offset {
            Ok(Some(offset))
        } else {
            Ok(None)
        }
    }

    /// The page that the bytes at a page's place hold.
    pub fn read_page(&self, table_name: &str, page_number: u32, bytes: &[u8]) -> (r: DbResult<
        Option<Page>,
    >)
        ensures
            error::outcome(r) == page_in_record(table_name@, page_number, bytes@),
    {
        let mut i: usize = 0;
        while i < bytes.len() && bytes[i] == 0
            invariant
                i <= bytes@.len(),
                forall|j: int| 0 <= j < i ==> bytes@[j] == 0,
            decreases bytes@.len() - i,
        {
            i += 1;
        }
        if i == bytes.len() {
            return Ok(None);
        }
        assert(!all_zero(bytes@)) by {
            assert(bytes@[i as int] != 0);
        }
        match Page::decode(bytes) {
            None => Err(corruption_error(table_name, page_number, "checksum or format invalid")),
            Some(p) => {
                if p.header.page_number != page_number {
                    let stored = num::u64_text(p.header.page_number as u64);
                    let reason = error::cat2("stored page number ", stored.as_str());
                    Err(corruption_error(table_name, page_number, reason.as_str()))
                } else {
                    Ok(Some(p))
                }
            },
        }
    }

    /// What to write for a page.
    pub fn write_page(&self, page: &Page) -> (r: SegmentWrites)
        requires
            self.wf(),
        ensures
            ({
                let made = writes_from(
                    seq![page@],
                    record_bytes(self.page_size as nat),
                    0,
                    Seq::empty(),
                );
                write_models(r.writes@) == made.0 && error::outcome(r.outcome) == made.1
            }),
    {
        let mut one: Vec<Page> = Vec::new();
        one.push(page.clone());
        assert(one.deep_view() =~= seq![page@]);
        self.write_pages(&one)
    }

    /// What to write for pages, with one flush at the end.
    pub fn write_pages(&self, pages: &Vec<Page>) -> (r: SegmentWrites)
        requires
            self.wf(),
        ensures
            ({
                let made = writes_from(
                    pages.deep_view(),
                    record_bytes(self.page_size as nat),
                    0,
                    Seq::empty(),
                );
                write_models(r.writes@) == made.0 && error::outcome(r.outcome) == made.1
            }),
    {
        let record = self.record_size();
        let ghost all = pages.deep_view();
        let ghost whole = writes_from(all, record as nat, 0, Seq::empty());
        let mut out: Vec<(u64, Vec<u8>)> = Vec::new();
        let mut i: usize = 0;
        assert(write_models(out@) =~= Seq::empty());
        while i < pages.len()
            invariant
                i <= pages@.len(),
                57 <= record < 0x1_0000_0000,
                record == record_bytes(self.page_size as nat),
                all == pages.deep_view(),
                whole == writes_from(all, record as nat, 0, Seq::empty()),
                writes_from(all, record as nat, i as int, write_models(out@)) == whole,
            decreases pages@.len() - i,
        {
            assert(all[i as int] == pages@[i as int]@);
            let bytes = pages[i].encode();
            let number: u32 = pages[i].header.page_number;
            if bytes.len() as u64 != record {
                let n = num::u64_text(number as u64);
                let text = error::cat3("Page ", n.as_str(), " has invalid encoded size");
                return SegmentWrites { writes: out, outcome: Err(DbError::new(text)) };
            }
            proof {
                place_is_counted(number, record);
            }
            let ghost before = write_models(out@);
            let at: u64 = (number as u64) * record;
            out.push((at, bytes));
            assert(write_models(out@) =~= before.push((at, bytes@)));
            i += 1;
        }
        SegmentWrites { writes: out, outcome: Ok(()) }
    }

    /// What to write to delete a page from a segment file: zeros in its place.
    pub fn delete_page(&self, page_number: u32) -> (r: (u64, Vec<u8>))
        requires
            self.wf(),
        ensures
            r.0 == page_number * record_bytes(self.page_size as nat),
            r.1@.len() == record_bytes(self.page_size as nat),
            all_zero(r.1@),
    {
        let record = self.record_size();
        proof {
            place_is_counted(page_number, record);
        }
        let offset: u64 = (page_number as u64) * record;
        let mut zeros: Vec<u8> = Vec::new();
        let mut i: u64 = 0;
        while i < record
            invariant
                i <= record,
                zeros@.len() == i,
                all_zero(zeros@),
            decreases record - i,
        {
            zeros.push(0);
            i += 1;
        }
        (offset, zeros)
    }

    /// The pages of a segment file of a length. A file with more pages than there are numbers is
    /// refused.
    pub fn list_pages(&self, table_name: &str, length: u64) -> (r: DbResult<Vec<u32>>)
        requires
            self.wf(),
        ensures
            ({
                let record = record_bytes(self.page_size as nat);
                match r {
                    Err(e) => if length as nat % record != 0 {
                        e.message@ == truncated(table_name@)
                    } else {
                        length as nat / record > u32::MAX && e.message@ == oversized(table_name@)
                    },
                    Ok(list) => {
                        &&& length as nat % record == 0
                        &&& list@ == listing(length as nat / record)
                    },
                }
            }),
    {
        let record = self.record_size();
        if length % record != 0 {
            return Err(
                DbError::new(
                    error::cat3("Page segment for table '", table_name, "' is truncated"),
                ),
            );
        }
        let count: u64 = length / record;
        if count > u32::MAX as u64 {
            return Err(
                DbError::new(
                    error::cat3("Page segment for table '", table_name, "' has too many pages"),
                ),
            );
        }
        let mut out: Vec<u32> = Vec::new();
        let mut i: u64 = 0;
        while i < count
            invariant
                i <= count <= u32::MAX,
                out@.len() == i,
                forall|j: int| 0 <= j < out@.len() ==> out@[j] == j,
            decreases count - i,
        {
            out.push(i as u32);
            i += 1;
        }
        assert(out@ =~= listing(count as nat));
        Ok(out)
    }

    /// The pages that the files of a table stand for, in order.
    pub fn list_page_files(&self, names: &Vec<String>) -> (r: Vec<u32>)
        ensures
            rising(r@),
            r@.to_multiset() == file_numbers(names.deep_view(), names@.len() as int).to_multiset(),
    {
        let ghost all = names.deep_view();
        let mut out: Vec<u32> = Vec::new();
        let mut i: usize = 0;
        assert(out@ =~= file_numbers(all, 0));
        while i < names.len()
            invariant
                i <= names@.len(),
                all == names.deep_view(),
                rising(out@),
                out@.to_multiset() == file_numbers(all, i as int).to_multiset(),
            decreases names@.len() - i,
        {
            assert(all[i as int] == names@[i as int]@);
            match number_in_name(names[i].as_str()) {
                None => {},
                Some(n) => {
                    broadcast use vstd::seq_lib::group_to_multiset_ensures;

                    let ghost before = out@;
                    insert_rising(&mut out, n);
                    assert(file_numbers(all, i + 1) == file_numbers(all, i as int).push(n));
                    assert(out@.to_multiset() == before.to_multiset().insert(n));
                },
            }
            i += 1;
        }
        out
    }
}

proof fn place_is_counted(number: u32, record: u64)
    requires
        record < 0x1_0000_0000,
    ensures
        0 <= number * record <= u64::MAX,
{
    assert(0 <= number * record <= 0xFFFF_FFFF * 0xFFFF_FFFF) by (nonlinear_arith)
        requires
            0 <= number <= 0xFFFF_FFFF,
            0 <= record <= 0xFFFF_FFFF,
    ;
}

/// Pages of different numbers do not overlap in a segment file.
pub proof fn pages_stand_apart(a: u32, b: u32, record: nat)
    requires
        a < b,
    ensures
        a * record + record <= b * record,
{
    assert(a * record + record <= b * record) by (nonlinear_arith)
        requires
            a < b,
    ;
}

/// A page of the right size that was written is read back: clean, and sized by its data.
pub proof fn written_page_is_read(table: Seq<char>, p: PageModel)
    ensures
        page_in_record(table, p.header.page_number, page::page_bytes(p.header, p.data)) == Ok::<
            Option<PageModel>,
            Seq<char>,
        >(Some(page::stored(p))),
{
    page::decode_page_bytes(p);
    codec::le_len(p.header.page_number as nat, 4);
    assert(page::page_bytes(p.header, p.data)[4] >= 0x80);
}

// ---------------------------------------------------------------------------------------------
// Segment files as a whole
// ---------------------------------------------------------------------------------------------
/// A file into which bytes were put at a place; what lies between its end and the place is zero.
pub open spec fn put(file: Seq<u8>, at: int, bytes: Seq<u8>) -> Seq<u8> {
    Seq::new(
        if file.len() < at + bytes.len() {
            (at + bytes.len()) as nat
        } else {
            file.len()
        },
        |i: int|
            if at <= i < at + bytes.len() {
                bytes[i - at]
            } else if i < file.len() {
                file[i]
            } else {
                0
            },
    )
}

/// A file into which bytes were put one after the other, each at its place.
pub open spec fn put_all(file: Seq<u8>, writes: Seq<(u64, Seq<u8>)>) -> Seq<u8>
    decreases writes.len(),
{
    if writes.len() == 0 {
        file
    } else {
        put(put_all(file, writes.drop_last()), writes.last().0 as int, writes.last().1)
    }
}

/// The bytes of the record of a number.
pub open spec fn record_at(file: Seq<u8>, record: nat, number: int) -> Seq<u8> {
    file.subrange(number * record, number * record + record)
}

/// The pages that the first records of a file hold.
pub open spec fn pages_read(table: Seq<char>, file: Seq<u8>, record: nat, count: nat) -> Result<
    Seq<PageModel>,
    Seq<char>,
>
    decreases count,
{
    if count == 0 {
        Ok(Seq::empty())
    } else {
        let number = (count - 1) as nat;
        match pages_read(table, file, record, number) {
            Err(e) => Err(e),
            Ok(list) => match page_in_record(
                table,
                number as u32,
                record_at(file, record, number as int),
            ) {
                Err(e) => Err(e),
                Ok(None) => Ok(list),
                Ok(Some(p)) => Ok(list.push(p)),
            },
        }
    }
}

/// Whether the numbers of pages rise.
pub open spec fn numbers_rise(pages: Seq<PageModel>) -> bool {
    forall|i: int, j: int|
        0 <= i < j < pages.len() ==> (#[trigger] pages[i]).header.page_number < (
        #[trigger] pages[j]).header.page_number
}

/// Pages as they come back from disk.
pub open spec fn all_stored(pages: Seq<PageModel>) -> Seq<PageModel> {
    pages.map_values(|p: PageModel| page::stored(p))
}

/// How many records a file has that holds pages: up to the last of them.
pub open spec fn records_of(pages: Seq<PageModel>) -> nat {
    if pages.len() == 0 {
        0
    } else {
        (pages.last().header.page_number + 1) as nat
    }
}

proof fn writes_of_one_more(pages: Seq<PageModel>, record: nat, at: int, done: Seq<(u64, Seq<u8>)>)
    requires
        0 <= at < pages.len(),
        writes_from(pages, record, at, done).1 is Ok,
    ensures
        ({
            let p = pages.last();
            let bytes = page::page_bytes(p.header, p.data);
            let before = writes_from(pages.drop_last(), record, at, done);
            &&& bytes.len() == record
            &&& before.1 is Ok
            &&& writes_from(pages, record, at, done).0 == before.0.push(
                ((p.header.page_number * record) as u64, bytes),
            )
        }),
    decreases pages.len() - at,
{
    let p = pages[at];
    let bytes = page::page_bytes(p.header, p.data);
    let more = done.push(((p.header.page_number * record) as u64, bytes));
    let rest = pages.drop_last();
    if at < rest.len() {
        assert(rest[at] == p);
        writes_of_one_more(pages, record, at + 1, more);
    } else {
        assert(writes_from(pages, record, at + 1, more) == (more, Ok::<(), Seq<char>>(())));
    }
}

/// Pages of the size of a record can be written.
pub proof fn pages_of_one_size_are_written(
    pages: Seq<PageModel>,
    record: nat,
    at: int,
    done: Seq<(u64, Seq<u8>)>,
)
    requires
        0 <= at,
        forall|i: int| 0 <= i < pages.len() ==> (#[trigger] pages[i]).data.len() + 57 == record,
    ensures
        writes_from(pages, record, at, done).1 is Ok,
    decreases pages.len() - at,
{
    if at < pages.len() {
        let p = pages[at];
        let bytes = page::page_bytes(p.header, p.data);
        page::decode_page_bytes(p);
        assert(bytes.len() == record);
        pages_of_one_size_are_written(
            pages,
            record,
            at + 1,
            done.push(((p.header.page_number * record) as u64, bytes)),
        );
    }
}

/// Pages in order of their numbers, written into a new file, are read back from it: record after
/// record, each as it comes back from disk, and no others.
pub proof fn written_pages_are_read(table: Seq<char>, pages: Seq<PageModel>, record: nat, count: nat)
    requires
        numbers_rise(pages),
        57 <= record < 0x1_0000_0000,
        writes_from(pages, record, 0, Seq::empty()).1 is Ok,
        count == records_of(pages),
    ensures
        ({
            let file = put_all(Seq::empty(), writes_from(pages, record, 0, Seq::empty()).0);
            &&& file.len() == count * record
            &&& pages_read(table, file, record, count) == Ok::<Seq<PageModel>, Seq<char>>(
                all_stored(pages),
            )
        }),
    decreases pages.len(),
{
    let writes = writes_from(pages, record, 0, Seq::empty()).0;
    let file = put_all(Seq::empty(), writes);
    if pages.len() == 0 {
        assert(all_stored(pages) =~= Seq::empty());
        assert(count * record == 0) by (nonlinear_arith)
            requires
                count == 0,
        ;
    } else {
        let p = pages.last();
        let rest = pages.drop_last();
        let bytes = page::page_bytes(p.header, p.data);
        writes_of_one_more(pages, record, 0, Seq::empty());
        let before = records_of(rest);
        assert forall|i: int, j: int| 0 <= i < j < rest.len() implies (
        #[trigger] rest[i]).header.page_number < (#[trigger] rest[j]).header.page_number by {
            assert(rest[i] == pages[i]);
            assert(rest[j] == pages[j]);
        }
        written_pages_are_read(table, rest, record, before);
        let number = p.header.page_number;
        if rest.len() > 0 {
            assert(rest.last() == pages[rest.len() - 1]);
        }
        assert(before <= number);
        let older = put_all(Seq::empty(), writes_from(rest, record, 0, Seq::empty()).0);
        assert(writes.drop_last() =~= writes_from(rest, record, 0, Seq::empty()).0);
        place_is_counted(number, record as u64);
        assert(file == put(older, number * record, bytes));
        assert(before * record <= number * record && count * record == number * record + record)
            by (nonlinear_arith)
            requires
                before <= number,
                count == number + 1,
        ;
        assert(file.len() == count * record);
        reading_a_longer_file(table, older, file, record, before, number as nat);
        assert(pages_read(table, file, record, number as nat) == Ok::<Seq<PageModel>, Seq<char>>(
            all_stored(rest),
        ));
        assert(record_at(file, record, number as int) =~= bytes);
        written_page_is_read(table, p);
        assert(all_stored(pages) =~= all_stored(rest).push(page::stored(p)));
    }
}

proof fn reading_a_longer_file(
    table: Seq<char>,
    a: Seq<u8>,
    b: Seq<u8>,
    record: nat,
    before: nat,
    n: nat,
)
    requires
        a.len() == before * record,
        n * record <= b.len(),
        a.len() <= b.len(),
        n <= u32::MAX,
        forall|i: int| 0 <= i < n * record ==> #[trigger] b[i] == (if i < a.len() {
            a[i]
        } else {
            0
        }),
    ensures
        pages_read(table, b, record, n) == pages_read(
            table,
            a,
            record,
            if n < before {
                n
            } else {
                before
            },
        ),
    decreases n,
{
    if n > 0 {
        let k = (n - 1) as nat;
        assert(k * record + record == n * record) by (nonlinear_arith)
            requires
                n == k + 1,
        ;
        assert forall|i: int| 0 <= i < k * record implies #[trigger] b[i] == (if i < a.len() {
            a[i]
        } else {
            0
        }) by {}
        reading_a_longer_file(table, a, b, record, before, k);
        if k < before {
            assert(k * record + record <= before * record) by (nonlinear_arith)
                requires
                    k + 1 <= before,
            ;
            assert(record_at(b, record, k as int) =~= record_at(a, record, k as int));
        } else {
            assert(before * record <= k * record) by (nonlinear_arith)
                requires
                    before <= k,
            ;
            assert(all_zero(record_at(b, record, k as int)));
        }
    }
}

} // verus!
