//! The log file: records one after the other, each behind its length and its checksum.
use crate::codec;
use crate::page;
use crate::text;
use crate::wal::{WalEntry, WalRecordType};
use vstd::prelude::*;

verus! {

/// The bytes before the content of a record: its length and its checksum.
pub const RECORD_HEAD: usize = 40;

/// The bytes before the data in the content of a record: number, kind and transaction.
pub const ENTRY_HEAD: usize = 17;

/// A logged record.
#[derive(Debug, Clone)]
pub struct LogRecord {
    pub entry: WalEntry,
    pub data: Vec<u8>,
}

#[verifier::ext_equal]
pub struct RecordModel {
    pub entry: WalEntry,
    pub data: Seq<u8>,
}

impl View for LogRecord {
    type V = RecordModel;

    open spec fn view(&self) -> RecordModel {
        RecordModel { entry: self.entry, data: self.data@ }
    }
}

impl DeepView for LogRecord {
    type V = RecordModel;

    open spec fn deep_view(&self) -> RecordModel {
        self@
    }
}

pub open spec fn kind_code(t: WalRecordType) -> u8 {
    match t {
        WalRecordType::Batch => 0,
        WalRecordType::Commit => 1,
        WalRecordType::Applied => 2,
        WalRecordType::GroupCommit => 3,
        WalRecordType::Other => 4,
    }
}

pub open spec fn kind_of(code: u8) -> WalRecordType {
    if code == 0 {
        WalRecordType::Batch
    } else if code == 1 {
        WalRecordType::Commit
    } else if code == 2 {
        WalRecordType::Applied
    } else if code == 3 {
        WalRecordType::GroupCommit
    } else {
        WalRecordType::Other
    }
}

/// The content of a record.
pub open spec fn content(r: RecordModel) -> Seq<u8> {
    codec::le(r.entry.lsn as nat, 8) + seq![kind_code(r.entry.record_type)] + codec::le(
        r.entry.tx_id as nat,
        8,
    ) + r.data
}

/// A record as the file holds it.
pub open spec fn record_bytes(r: RecordModel) -> Seq<u8> {
    codec::le(content(r).len(), 8) + page::sha256_digest(content(r)) + content(r)
}

/// The record that a content spells; one that is too short spells none.
pub open spec fn record_in(b: Seq<u8>) -> Option<RecordModel> {
    if b.len() < ENTRY_HEAD {
        None
    } else {
        Some(
            RecordModel {
                entry: WalEntry {
                    lsn: codec::from_le(b.subrange(0, 8)) as u64,
                    record_type: kind_of(b[8]),
                    tx_id: codec::from_le(b.subrange(9, 17)) as u64,
                },
                data: b.subrange(17, b.len() as int),
            },
        )
    }
}

/// The record at a place of a file, and where it ends. There is none where the file breaks off or
/// the checksum is another.
pub open spec fn record_at(file: Seq<u8>, at: int) -> Option<(RecordModel, int)> {
    if at < 0 || file.len() - at < RECORD_HEAD {
        None
    } else {
        let n = codec::from_le(file.subrange(at, at + 8)) as int;
        let start = at + RECORD_HEAD;
        if file.len() - start < n {
            None
        } else {
            let b = file.subrange(start, start + n);
            if page::sha256_digest(b) != file.subrange(at + 8, start) {
                None
            } else {
                match record_in(b) {
                    None => None,
                    Some(r) => Some((r, start + n)),
                }
            }
        }
    }
}

/// The records of a file from a place on, behind those before it, and where they end. The first
/// that cannot be read ends them.
pub open spec fn records_from(file: Seq<u8>, at: int, done: Seq<RecordModel>) -> (
    Seq<RecordModel>,
    int,
)
    decreases file.len() - at,
{
    match record_at(file, at) {
        None => (done, at),
        Some((r, next)) => if next <= at || next > file.len() {
            (done, at)
        } else {
            records_from(file, next, done.push(r))
        },
    }
}

fn code_of_kind(t: WalRecordType) -> (r: u8)
    ensures
        r == kind_code(t),
{
    match t {
        WalRecordType::Batch => 0,
        WalRecordType::Commit => 1,
        WalRecordType::Applied => 2,
        WalRecordType::GroupCommit => 3,
        WalRecordType::Other => 4,
    }
}

fn kind_of_code(code: u8) -> (r: WalRecordType)
    ensures
        r == kind_of(code),
{
    if code == 0 {
        WalRecordType::Batch
    } else if code == 1 {
        WalRecordType::Commit
    } else if code == 2 {
        WalRecordType::Applied
    } else if code == 3 {
        WalRecordType::GroupCommit
    } else {
        WalRecordType::Other
    }
}

/// A record as the file holds it.
pub fn frame_record(r: &LogRecord) -> (b: Vec<u8>)
    ensures
        b@ == record_bytes(r@),
{
    let mut inner: Vec<u8> = Vec::new();
    codec::put_le(&mut inner, r.entry.lsn, 8);
    inner.push(code_of_kind(r.entry.record_type));
    codec::put_le(&mut inner, r.entry.tx_id, 8);
    inner.extend_from_slice(r.data.as_slice());
    assert(inner@ =~= content(r@));
    let digest = page::sha256(inner.as_slice());
    let mut out: Vec<u8> = Vec::new();
    codec::put_le(&mut out, inner.len() as u64, 8);
    out.extend_from_slice(digest.as_slice());
    out.extend_from_slice(inner.as_slice());
    assert(out@ =~= record_bytes(r@));
    out
}

fn read_content(b: &Vec<u8>) -> (r: Option<LogRecord>)
    ensures
        r.deep_view() == record_in(b@),
{
    if b.len() < ENTRY_HEAD {
        return None;
    }
    let lsn = codec::get_le(b.as_slice(), 0, 8);
    let tx_id = codec::get_le(b.as_slice(), 9, 8);
    let data = codec::sub_bytes(b.as_slice(), 17, b.len());
    Some(
        LogRecord {
            entry: WalEntry { lsn: lsn, record_type: kind_of_code(b[8]), tx_id: tx_id },
            data: data,
        },
    )
}

fn read_record(file: &[u8], at: usize) -> (r: Option<(LogRecord, usize)>)
    requires
        at <= file@.len(),
    ensures
        r is Some == record_at(file@, at as int) is Some,
        r matches Some((record, next)) ==> record_at(file@, at as int) == Some(
            (record@, next as int),
        ) && at < next <= file@.len(),
{
    if file.len() - at < RECORD_HEAD {
        return None;
    }
    let n = codec::get_le(file, at, 8);
    let start: usize = at + RECORD_HEAD;
    if n > (file.len() - start) as u64 {
        return None;
    }
    let size: usize = n as usize;
    let b = codec::sub_bytes(file, start, start + size);
    let sum = codec::sub_bytes(file, at + 8, start);
    let digest = page::sha256(b.as_slice());
    if !text::bytes_equal(digest.as_slice(), sum.as_slice()) {
        return None;
    }
    match read_content(&b) {
        None => None,
        Some(record) => Some((record, start + size)),
    }
}

/// The records of a file, and how much of it they take up. What stands behind them was cut off
/// while it was written.
pub fn read_records(file: &[u8]) -> (r: (Vec<LogRecord>, usize))
    ensures
        (r.0.deep_view(), r.1 as int) == records_from(file@, 0, Seq::empty()),
{
    let ghost whole = records_from(file@, 0, Seq::empty());
    let mut out: Vec<LogRecord> = Vec::new();
    let mut at: usize = 0;
    assert(out.deep_view() =~= Seq::empty());
    loop
        invariant
            at <= file@.len(),
            records_from(file@, at as int, out.deep_view()) == whole,
        ensures
            whole == (out.deep_view(), at as int),
        decreases file@.len() - at,
    {
        match read_record(file, at) {
            None => {
                break;
            },
            Some((record, next)) => {
                let ghost before = out.deep_view();
                let ghost shown = record@;
                out.push(record);
                assert(out.deep_view() =~= before.push(shown));
                at = next;
            },
        }
    }
    (out, at)
}

// ---------------------------------------------------------------------------------------------
// Laws
// ---------------------------------------------------------------------------------------------
/// The bytes of records, one after the other.
pub open spec fn file_of(records: Seq<RecordModel>) -> Seq<u8>
    decreases records.len(),
{
    if records.len() == 0 {
        Seq::empty()
    } else {
        record_bytes(records[0]) + file_of(records.skip(1))
    }
}

proof fn record_lengths(r: RecordModel)
    ensures
        content(r).len() == 17 + r.data.len(),
        record_bytes(r).len() == 57 + r.data.len(),
{
    codec::le_len(r.entry.lsn as nat, 8);
    codec::le_len(r.entry.tx_id as nat, 8);
    codec::le_len(content(r).len(), 8);
}

proof fn framed_record_is_read(before: Seq<u8>, r: RecordModel, after: Seq<u8>)
    requires
        r.data.len() + 17 < codec::pow256(8),
    ensures
        record_at(before + record_bytes(r) + after, before.len() as int) == Some(
            (r, (before.len() + record_bytes(r).len()) as int),
        ),
{
    let file = before + record_bytes(r) + after;
    let at = before.len() as int;
    let b = content(r);
    codec::pow256_values();
    record_lengths(r);
    codec::le_len(r.entry.lsn as nat, 8);
    codec::le_len(r.entry.tx_id as nat, 8);
    codec::le_len(b.len(), 8);
    codec::from_le_le(r.entry.lsn as nat, 8);
    codec::from_le_le(r.entry.tx_id as nat, 8);
    codec::from_le_le(b.len(), 8);
    assert(file.subrange(at, at + 8) =~= codec::le(b.len(), 8));
    assert(file.subrange(at + 8, at + 40) =~= page::sha256_digest(b));
    assert(file.subrange(at + 40, at + 40 + b.len()) =~= b);
    assert(b.subrange(0, 8) =~= codec::le(r.entry.lsn as nat, 8));
    assert(b.subrange(9, 17) =~= codec::le(r.entry.tx_id as nat, 8));
    assert(b.subrange(17, b.len() as int) =~= r.data);
    assert(record_in(b) == Some(r));
}

proof fn torn_record_is_not_read(before: Seq<u8>, r: RecordModel, n: int)
    requires
        r.data.len() + 17 < codec::pow256(8),
        0 <= n < record_bytes(r).len(),
    ensures
        record_at(before + record_bytes(r).take(n), before.len() as int) is None,
{
    let file = before + record_bytes(r).take(n);
    let at = before.len() as int;
    record_lengths(r);
    if n >= RECORD_HEAD {
        codec::le_len(content(r).len(), 8);
        codec::from_le_le(content(r).len(), 8);
        assert(file.subrange(at, at + 8) =~= codec::le(content(r).len(), 8));
    }
}

proof fn records_follow(
    before: Seq<u8>,
    records: Seq<RecordModel>,
    torn: RecordModel,
    n: int,
    done: Seq<RecordModel>,
)
    requires
        forall|i: int|
            0 <= i < records.len() ==> (#[trigger] records[i]).data.len() + 17 < codec::pow256(8),
        torn.data.len() + 17 < codec::pow256(8),
        0 <= n < record_bytes(torn).len(),
    ensures
        records_from(
            before + file_of(records) + record_bytes(torn).take(n),
            before.len() as int,
            done,
        ) == (done + records, (before.len() + file_of(records).len()) as int),
    decreases records.len(),
{
    let tail = record_bytes(torn).take(n);
    let file = before + file_of(records) + tail;
    if records.len() == 0 {
        assert(file =~= before + tail);
        torn_record_is_not_read(before, torn, n);
        assert(done + records =~= done);
    } else {
        let r = records[0];
        let rest = records.skip(1);
        assert(records[0].data.len() + 17 < codec::pow256(8));
        assert forall|i: int| 0 <= i < rest.len() implies (#[trigger] rest[i]).data.len() + 17
            < codec::pow256(8) by {
            assert(rest[i] == records[i + 1]);
        }
        record_lengths(r);
        let next = before + record_bytes(r);
        assert(file =~= before + record_bytes(r) + (file_of(rest) + tail));
        framed_record_is_read(before, r, file_of(rest) + tail);
        assert(file =~= next + file_of(rest) + tail);
        records_follow(next, rest, torn, n, done.push(r));
        assert(done.push(r) + rest =~= done + records);
    }
}

/// The records that were written are read, in order; one that was cut off while it was written is
/// left out, and the file ends where it begins.
pub proof fn written_records_are_read(records: Seq<RecordModel>, torn: RecordModel, n: int)
    requires
        forall|i: int|
            0 <= i < records.len() ==> (#[trigger] records[i]).data.len() + 17 < codec::pow256(8),
        torn.data.len() + 17 < codec::pow256(8),
        0 <= n < record_bytes(torn).len(),
    ensures
        records_from(file_of(records) + record_bytes(torn).take(n), 0, Seq::empty()) == (
            records,
            file_of(records).len() as int,
        ),
{
    let none = Seq::<u8>::empty();
    let tail = record_bytes(torn).take(n);
    records_follow(none, records, torn, n, Seq::empty());
    assert(none + file_of(records) + tail =~= file_of(records) + tail);
    assert(Seq::<RecordModel>::empty() + records =~= records);
}

} // verus!
