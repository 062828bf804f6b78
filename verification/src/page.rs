//! Disk pages: their header, checksum and the rows packed into them.
use crate::codec;
use crate::text;
use sha2::{Digest, Sha256};
use vstd::prelude::*;

verus! {

/// What `sha2::Sha256::digest` returns.
pub uninterp spec fn sha256_hash(data: Seq<u8>) -> [u8; 32];

/// The SHA-256 digest of bytes.
pub open spec fn sha256_digest(data: Seq<u8>) -> Seq<u8> {
    sha256_hash(data)@
}

/// `sha2::Sha256::digest`: thirty-two bytes that depend on the input alone.
#[verifier::external_body]
pub(crate) fn sha256(data: &[u8]) -> (r: Vec<u8>)
    ensures
        r@ == sha256_hash(data@)@,
{
    Sha256::digest(data).to_vec()
}

#[derive(Debug, Clone, Copy, PartialEq, Eq, Structural)]
pub enum PageType {
    Index,
    Data,
    Undo,
    Redo,
    System,
}

#[derive(Debug, Clone, Copy, PartialEq, Eq, Structural)]
pub struct PageHeader {
    pub page_number: u32,
    pub page_type: PageType,
    pub lsn: u64,
    pub prev_page: Option<u32>,
    pub next_page: Option<u32>,
    pub is_dirty: bool,
    pub row_count: u32,
}

#[derive(Debug)]
pub struct Page {
    pub header: PageHeader,
    pub data: Vec<u8>,
    pub size: usize,
}

/// What a page holds.
pub struct PageModel {
    pub header: PageHeader,
    pub data: Seq<u8>,
    pub size: nat,
}

impl View for Page {
    type V = PageModel;

    open spec fn view(&self) -> PageModel {
        PageModel { header: self.header, data: self.data@, size: self.size as nat }
    }
}

impl DeepView for Page {
    type V = PageModel;

    open spec fn deep_view(&self) -> PageModel {
        self@
    }
}

impl Clone for Page {
    fn clone(&self) -> (r: Self)
        ensures
            r@ == self@,
    {
        Page {
            header: self.header,
            data: text::copy_bytes(self.data.as_slice()),
            size: self.size,
        }
    }
}

pub const PAGE_HEADER_SIZE: usize = 25;

pub const PAGE_CHECKSUM_SIZE: usize = 32;

/// Set in the type byte of pages whose checksum covers the header.
pub const PAGE_FORMAT_HEADER_CHECKSUM: u8 = 0x80;

pub open spec fn type_code(t: PageType) -> u8 {
    match t {
        PageType::Index => 0,
        PageType::Data => 1,
        PageType::Undo => 2,
        PageType::Redo => 3,
        PageType::System => 4,
    }
}

pub open spec fn type_of_code(code: u8) -> Option<PageType> {
    if code == 0 {
        Some(PageType::Index)
    } else if code == 1 {
        Some(PageType::Data)
    } else if code == 2 {
        Some(PageType::Undo)
    } else if code == 3 {
        Some(PageType::Redo)
    } else if code == 4 {
        Some(PageType::System)
    } else {
        None
    }
}

/// A neighbour's number, or the largest number for none.
pub open spec fn neighbour(page: Option<u32>) -> nat {
    match page {
        Some(n) => n as nat,
        None => u32::MAX as nat,
    }
}

pub open spec fn neighbour_of(n: nat) -> Option<u32> {
    if n == u32::MAX {
        None
    } else {
        Some(n as u32)
    }
}

/// The header's bytes, with the mark of header checksums in the type byte.
pub open spec fn header_bytes(h: PageHeader) -> Seq<u8> {
    codec::le(h.page_number as nat, 4) + seq![(type_code(h.page_type) + 0x80) as u8] + codec::le(
        h.lsn as nat,
        8,
    ) + codec::le(neighbour(h.prev_page), 4) + codec::le(neighbour(h.next_page), 4) + codec::le(
        h.row_count as nat,
        4,
    )
}

/// A page's bytes: header, data, and the checksum of both.
pub open spec fn page_bytes(h: PageHeader, data: Seq<u8>) -> Seq<u8> {
    header_bytes(h) + data + sha256_digest(header_bytes(h) + data)
}

/// The page that bytes encode. A type byte without the mark belongs to a page whose checksum
/// covers its data alone.
pub open spec fn decoded_page(b: Seq<u8>) -> Option<PageModel> {
    if b.len() < 57 {
        None
    } else {
        let n = b.len() as int;
        let data = b.subrange(25, n - 32);
        let marked = b[4] >= 0x80;
        let covered = if marked {
            b.subrange(0, 25) + data
        } else {
            data
        };
        match type_of_code(
            if marked {
                (b[4] - 0x80) as u8
            } else {
                b[4]
            },
        ) {
            None => None,
            Some(page_type) => if sha256_digest(covered) != b.subrange(n - 32, n) {
                None
            } else {
                Some(
                    PageModel {
                        header: PageHeader {
                            page_number: codec::from_le(b.subrange(0, 4)) as u32,
                            page_type: page_type,
                            lsn: codec::from_le(b.subrange(5, 13)) as u64,
                            prev_page: neighbour_of(codec::from_le(b.subrange(13, 17))),
                            next_page: neighbour_of(codec::from_le(b.subrange(17, 21))),
                            is_dirty: false,
                            row_count: codec::from_le(b.subrange(21, 25)) as u32,
                        },
                        data: data,
                        size: data.len(),
                    },
                )
            },
        }
    }
}

/// A page as it comes back from disk: clean, sized by its data, and without the neighbours that
/// the number for none stands for.
pub open spec fn stored(p: PageModel) -> PageModel {
    PageModel {
        header: PageHeader {
            prev_page: neighbour_of(neighbour(p.header.prev_page)),
            next_page: neighbour_of(neighbour(p.header.next_page)),
            is_dirty: false,
            ..p.header
        },
        data: p.data,
        size: p.data.len(),
    }
}

/// Reading back the bytes of a page gives the page.
pub proof fn decode_page_bytes(p: PageModel)
    ensures
        decoded_page(page_bytes(p.header, p.data)) == Some(stored(p)),
        header_bytes(p.header).len() == 25,
{
    let h = p.header;
    let b = page_bytes(h, p.data);
    let n = b.len() as int;
    codec::pow256_values();
    codec::le_len(h.page_number as nat, 4);
    codec::le_len(h.lsn as nat, 8);
    codec::le_len(neighbour(h.prev_page), 4);
    codec::le_len(neighbour(h.next_page), 4);
    codec::le_len(h.row_count as nat, 4);
    codec::from_le_le(h.page_number as nat, 4);
    codec::from_le_le(h.lsn as nat, 8);
    codec::from_le_le(neighbour(h.prev_page), 4);
    codec::from_le_le(neighbour(h.next_page), 4);
    codec::from_le_le(h.row_count as nat, 4);
    let hb = header_bytes(h);
    assert(hb.len() == 25);
    assert(b.subrange(0, 25) =~= hb);
    assert(b.subrange(25, n - 32) =~= p.data);
    assert(b.subrange(n - 32, n) =~= sha256_digest(hb + p.data));
    assert(b.subrange(0, 4) =~= codec::le(h.page_number as nat, 4));
    assert(b[4] == hb[4]);
    assert(hb[4] == (type_code(h.page_type) + 0x80) as u8);
    assert(b.subrange(5, 13) =~= codec::le(h.lsn as nat, 8));
    assert(b.subrange(13, 17) =~= codec::le(neighbour(h.prev_page), 4));
    assert(b.subrange(17, 21) =~= codec::le(neighbour(h.next_page), 4));
    assert(b.subrange(21, 25) =~= codec::le(h.row_count as nat, 4));
}

impl Page {
    pub fn new(page_number: u32, page_type: PageType, size: usize) -> (r: Self)
        ensures
            r.header == (PageHeader {
                page_number: page_number,
                page_type: page_type,
                lsn: 0,
                prev_page: None,
                next_page: None,
                is_dirty: false,
                row_count: 0,
            }),
            r.data@ == Seq::new(size as nat, |i: int| 0u8),
            r.size == size,
    {
        let data: Vec<u8> = vec![0u8; size];
        assert(data@ =~= Seq::new(size as nat, |i: int| 0u8));
        Page {
            header: PageHeader {
                page_number: page_number,
                page_type: page_type,
                lsn: 0,
                prev_page: None,
                next_page: None,
                is_dirty: false,
                row_count: 0,
            },
            data: data,
            size: size,
        }
    }

    fn encoded_header(&self) -> (r: Vec<u8>)
        ensures
            r@ == header_bytes(self.header),
    {
        let mut out: Vec<u8> = Vec::new();
        codec::put_le(&mut out, self.header.page_number as u64, 4);
        let code: u8 = match self.header.page_type {
            PageType::Index => 0,
            PageType::Data => 1,
            PageType::Undo => 2,
            PageType::Redo => 3,
            PageType::System => 4,
        };
        out.push(code + PAGE_FORMAT_HEADER_CHECKSUM);
        codec::put_le(&mut out, self.header.lsn, 8);
        let prev: u32 = match self.header.prev_page {
            Some(n) => n,
            None => u32::MAX,
        };
        codec::put_le(&mut out, prev as u64, 4);
        let next: u32 = match self.header.next_page {
            Some(n) => n,
            None => u32::MAX,
        };
        codec::put_le(&mut out, next as u64, 4);
        codec::put_le(&mut out, self.header.row_count as u64, 4);
        assert(out@ =~= header_bytes(self.header));
        out
    }

    /// The checksum that `encode` stores: over the header and the data.
    pub fn calculate_checksum(&self) -> (r: Vec<u8>)
        ensures
            r@ == sha256_digest(header_bytes(self.header) + self.data@),
    {
        let header = self.encoded_header();
        page_checksum(header.as_slice(), self.data.as_slice(), true)
    }

    /// The page's bytes for disk storage. The type byte is marked and the checksum covers the
    /// header with the data; pages whose checksum covers the data alone stay readable.
    pub fn encode(&self) -> (r: Vec<u8>)
        ensures
            r@ == page_bytes(self.header, self.data@),
            decoded_page(r@) == Some(stored(self@)),
    {
        let mut buf = self.encoded_header();
        let sum = page_checksum(buf.as_slice(), self.data.as_slice(), true);
        buf.extend_from_slice(self.data.as_slice());
        buf.extend_from_slice(sum.as_slice());
        assert(buf@ =~= page_bytes(self.header, self.data@));
        proof {
            decode_page_bytes(self@);
        }
        buf
    }

    pub fn decode(bytes: &[u8]) -> (r: Option<Self>)
        ensures
            r is Some == decoded_page(bytes@) is Some,
            r matches Some(page) ==> decoded_page(bytes@) == Some(page@),
    {
        let n: usize = bytes.len();
        if n < PAGE_HEADER_SIZE + PAGE_CHECKSUM_SIZE {
            return None;
        }
        proof {
            codec::pow256_values();
            codec::from_le_bound(bytes@.subrange(0, 4));
            codec::from_le_bound(bytes@.subrange(5, 13));
            codec::from_le_bound(bytes@.subrange(13, 17));
            codec::from_le_bound(bytes@.subrange(17, 21));
            codec::from_le_bound(bytes@.subrange(21, 25));
        }
        let page_number: u32 = codec::get_le(bytes, 0, 4) as u32;
        let marked = bytes[4] >= PAGE_FORMAT_HEADER_CHECKSUM;
        let code: u8 = if marked {
            bytes[4] - PAGE_FORMAT_HEADER_CHECKSUM
        } else {
            bytes[4]
        };
        let page_type = if code == 0 {
            PageType::Index
        } else if code == 1 {
            PageType::Data
        } else if code == 2 {
            PageType::Undo
        } else if code == 3 {
            PageType::Redo
        } else if code == 4 {
            PageType::System
        } else {
            return None;
        };
        let lsn: u64 = codec::get_le(bytes, 5, 8);
        let prev: u32 = codec::get_le(bytes, 13, 4) as u32;
        let next: u32 = codec::get_le(bytes, 17, 4) as u32;
        let row_count: u32 = codec::get_le(bytes, 21, 4) as u32;
        let header = codec::sub_bytes(bytes, 0, PAGE_HEADER_SIZE);
        let data = codec::sub_bytes(bytes, PAGE_HEADER_SIZE, n - PAGE_CHECKSUM_SIZE);
        let expected = codec::sub_bytes(bytes, n - PAGE_CHECKSUM_SIZE, n);
        let actual = page_checksum(header.as_slice(), data.as_slice(), marked);
        if !text::bytes_equal(actual.as_slice(), expected.as_slice()) {
            return None;
        }
        let size: usize = data.len();
        Some(
            Page {
                header: PageHeader {
                    page_number: page_number,
                    page_type: page_type,
                    lsn: lsn,
                    prev_page: if prev == u32::MAX {
                        None
                    } else {
                        Some(prev)
                    },
                    next_page: if next == u32::MAX {
                        None
                    } else {
                        Some(next)
                    },
                    is_dirty: false,
                    row_count: row_count,
                },
                data: data,
                size: size,
            },
        )
    }
}

fn page_checksum(header: &[u8], data: &[u8], include_header: bool) -> (r: Vec<u8>)
    ensures
        r@ == sha256_digest(
            if include_header {
                header@ + data@
            } else {
                data@
            },
        ),
        r@.len() == 32,
{
    if include_header {
        let mut all = text::copy_bytes(header);
        all.extend_from_slice(data);
        assert(all@ =~= header@ + data@);
        sha256(all.as_slice())
    } else {
        sha256(data)
    }
}

} // verus!
