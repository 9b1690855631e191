//! The page reader: the store as a file of pages of one size, and a page as
//! a header, a role and a list of entries.
//!
//! The first page of the file holds the header of the store: a signature, the
//! version and the revision of the format, and the size of the pages. Every
//! other page begins with a header of 40 bytes, which holds a checksum, the
//! number of the next page of the same level, the number of entries and the
//! flags. The entries are listed from the end of the page backwards, four
//! bytes each: the length of an entry and the place where it begins, counted
//! from the end of the header.

use vstd::prelude::*;

use crate::bytes::{copy_range, read_u16, read_u32, u16_at, u32_at};
use crate::error::Error;

verus! {

/// The four bytes by which a store is known.
pub const SIGNATURE: u32 = 0x89AB_CDEF;

/// Where the signature stands.
pub const SIGNATURE_AT: usize = 4;

/// The version of the format.
pub const FORMAT_VERSION: u32 = 0x620;

/// Where the version of the format stands.
pub const FORMAT_VERSION_AT: usize = 8;

/// Where the revision of the format stands.
pub const FORMAT_REVISION_AT: usize = 232;

/// The lowest revision of the format that is supported: the one that brought
/// the header of a page that this reader reads.
pub const LOWEST_REVISION: u32 = 0x11;

/// The highest revision of the format that is supported.
pub const HIGHEST_REVISION: u32 = 0xE6;

/// Where the size of the pages stands.
pub const PAGE_SIZE_AT: usize = 236;

/// The length of the header of the store.
pub const STORE_HEADER_LEN: usize = 240;

/// The length of the header of a page.
pub const PAGE_HEADER_LEN: usize = 40;

/// Where a page's header holds the number of the next page.
pub const NEXT_PAGE_AT: usize = 20;

/// Where a page's header holds the number of entries.
pub const ENTRY_COUNT_AT: usize = 34;

/// Where a page's header holds the flags.
pub const FLAGS_AT: usize = 36;

/// The flag of the page at which a tree begins.
pub const FLAG_ROOT: u32 = 0x1;

/// The flag of a page that holds records.
pub const FLAG_LEAF: u32 = 0x2;

/// The flag of a page that holds keys and child pages.
pub const FLAG_BRANCH: u32 = 0x4;

/// The flag of a page that holds nothing.
pub const FLAG_EMPTY: u32 = 0x8;

/// The flag of a page of a tree of long values.
pub const FLAG_LONG_VALUE: u32 = 0x80;

/// The role of a page, decided once when the page is read.
#[derive(Clone, Copy, Debug, PartialEq, Eq, Structural)]
pub enum PageKind {
    /// A page of records.
    Leaf,
    /// A page of keys and child pages below the root.
    Branch,
    /// A page of segments of long values.
    LongValue,
    /// The page of keys and child pages at which a tree begins.
    Root,
    /// A page that holds nothing.
    Empty,
}

/// The sizes of page that are supported: the powers of two from 2048 to
/// 32768.
pub open spec fn supported_page_size(size: int) -> bool {
    size == 2048 || size == 4096 || size == 8192 || size == 16384 || size == 32768
}

/// The role that the flags of a page give it. The mark of an empty page
/// counts first, then that of a leaf, which holds long values where the flags
/// say so; a page that is no leaf is the root or a branch. Flags with none of
/// these marks give no role.
pub open spec fn kind_of_flags(flags: u32) -> Option<PageKind> {
    if flags & FLAG_EMPTY != 0 {
        Some(PageKind::Empty)
    } else if flags & FLAG_LEAF != 0 {
        if flags & FLAG_LONG_VALUE != 0 {
            Some(PageKind::LongValue)
        } else {
            Some(PageKind::Leaf)
        }
    } else if flags & FLAG_ROOT != 0 {
        Some(PageKind::Root)
    } else if flags & FLAG_BRANCH != 0 {
        Some(PageKind::Branch)
    } else {
        None
    }
}

/// Tells the role of a page from its flags.
pub fn page_kind(flags: u32) -> (r: Option<PageKind>)
    ensures
        r == kind_of_flags(flags),
{
    if flags & FLAG_EMPTY != 0 {
        Some(PageKind::Empty)
    } else if flags & FLAG_LEAF != 0 {
        if flags & FLAG_LONG_VALUE != 0 {
            Some(PageKind::LongValue)
        } else {
            Some(PageKind::Leaf)
        }
    } else if flags & FLAG_ROOT != 0 {
        Some(PageKind::Root)
    } else if flags & FLAG_BRANCH != 0 {
        Some(PageKind::Branch)
    } else {
        None
    }
}

/// The checksum of the first `words` 32-bit words of a page, the first of
/// which holds the checksum itself and is left out: the other words, combined
/// by exclusive or with the signature of the store.
pub open spec fn checksum_of(pg: Seq<u8>, words: int) -> u32
    decreases words,
{
    if words <= 1 {
        SIGNATURE
    } else {
        checksum_of(pg, words - 1) ^ (u32_at(pg, 4 * (words - 1)) as u32)
    }
}

/// Where the page's list of entries holds entry `i`.
pub open spec fn tag_at(pg: Seq<u8>, i: int) -> int {
    pg.len() - 4 * (i + 1)
}

/// The number of entries that the header states.
pub open spec fn entry_count(pg: Seq<u8>) -> int {
    u16_at(pg, ENTRY_COUNT_AT as int)
}

/// Where entry `i` begins in the page.
pub open spec fn entry_start(pg: Seq<u8>, i: int) -> int {
    PAGE_HEADER_LEN + u16_at(pg, tag_at(pg, i) + 2)
}

/// Where entry `i` ends in the page.
pub open spec fn entry_end(pg: Seq<u8>, i: int) -> int {
    entry_start(pg, i) + u16_at(pg, tag_at(pg, i))
}

/// The bytes of entry `i`.
pub open spec fn entry_bytes(pg: Seq<u8>, i: int) -> Seq<u8> {
    pg.subrange(entry_start(pg, i), entry_end(pg, i))
}

/// Whether the list of entries fits between the header and the end of the
/// page.
pub open spec fn count_fits(pg: Seq<u8>) -> bool {
    PAGE_HEADER_LEN + 4 * entry_count(pg) <= pg.len()
}

/// Whether the first `n` entries lie between the header and the list of
/// entries.
pub open spec fn entries_inside(pg: Seq<u8>, n: int) -> bool {
    forall|i: int| 0 <= i < n ==> #[trigger] entry_end(pg, i) <= pg.len() - 4 * entry_count(pg)
}

/// Whether two entries share no byte.
pub open spec fn apart(pg: Seq<u8>, i: int, j: int) -> bool {
    ||| entry_end(pg, i) <= entry_start(pg, j)
    ||| entry_end(pg, j) <= entry_start(pg, i)
    ||| entry_end(pg, i) == entry_start(pg, i)
    ||| entry_end(pg, j) == entry_start(pg, j)
}

/// Whether no two of the first `n` entries share a byte.
pub open spec fn entries_apart(pg: Seq<u8>, n: int) -> bool {
    forall|i: int, j: int| 0 <= i < j < n ==> #[trigger] apart(pg, i, j)
}

/// Whether the bytes are a page: the checksum holds, the flags give a role,
/// the list of entries fits into the page, an empty page has no entries, and
/// the entries lie inside the page and apart from each other.
pub open spec fn page_ok(pg: Seq<u8>) -> bool {
    &&& u32_at(pg, 0) == checksum_of(pg, pg.len() as int / 4)
    &&& kind_of_flags(u32_at(pg, FLAGS_AT as int) as u32) is Some
    &&& count_fits(pg)
    &&& kind_of_flags(u32_at(pg, FLAGS_AT as int) as u32) == Some(PageKind::Empty) ==> entry_count(
        pg,
    ) == 0
    &&& entries_inside(pg, entry_count(pg))
    &&& entries_apart(pg, entry_count(pg))
}

/// A page as plain values.
pub struct PageModel {
    pub number: u32,
    pub kind: PageKind,
    /// The number of the next page of the same level; 0 where there is none.
    pub next: u32,
    pub entries: Seq<Seq<u8>>,
}

/// The page that bytes which are a page hold.
pub open spec fn parsed(pg: Seq<u8>, number: u32) -> PageModel {
    PageModel {
        number,
        kind: kind_of_flags(u32_at(pg, FLAGS_AT as int) as u32).unwrap(),
        next: u32_at(pg, NEXT_PAGE_AT as int) as u32,
        entries: Seq::new(entry_count(pg) as nat, |i: int| entry_bytes(pg, i)),
    }
}

/// The first page, which holds the header of the store, read as a page: it
/// holds no entries.
pub open spec fn header_page() -> PageModel {
    PageModel { number: 1, kind: PageKind::Empty, next: 0, entries: Seq::empty() }
}

/// A store as plain values.
pub struct StoreModel {
    pub bytes: Seq<u8>,
    pub page_size: int,
    pub revision: u32,
}

impl StoreModel {
    /// The number of whole pages of the file.
    pub open spec fn page_count(self) -> int {
        self.bytes.len() as int / self.page_size
    }

    /// The bytes of page `n`. Pages are numbered from 1.
    pub open spec fn page_bytes(self, n: int) -> Seq<u8> {
        self.bytes.subrange((n - 1) * self.page_size, n * self.page_size)
    }

    /// What reading page `n` gives.
    pub open spec fn page(self, n: u32) -> Result<PageModel, Error> {
        if n == 0 || n > self.page_count() {
            Err(Error::OutOfRange)
        } else if n == 1 {
            Ok(header_page())
        } else if page_ok(self.page_bytes(n as int)) {
            Ok(parsed(self.page_bytes(n as int), n))
        } else {
            Err(Error::CorruptPage)
        }
    }

    /// Whether the store has pages of a supported size, and at least the
    /// one that holds its header.
    pub open spec fn well_formed(self) -> bool {
        supported_page_size(self.page_size) && self.bytes.len() >= self.page_size
    }
}

/// What opening a file gives, where revisions from `lowest` to `highest` are
/// supported. A file that is too short for the header of a store, or does not
/// bear the signature, or states a size of page that is not supported or
/// greater than the file, is corrupt.
pub open spec fn opened(bytes: Seq<u8>, lowest: u32, highest: u32) -> Result<StoreModel, Error> {
    if bytes.len() < STORE_HEADER_LEN || u32_at(bytes, SIGNATURE_AT as int) != SIGNATURE {
        Err(Error::CorruptPage)
    } else if u32_at(bytes, FORMAT_VERSION_AT as int) != FORMAT_VERSION || u32_at(
        bytes,
        FORMAT_REVISION_AT as int,
    ) < lowest || u32_at(bytes, FORMAT_REVISION_AT as int) > highest {
        Err(Error::UnsupportedVersion)
    } else if !supported_page_size(u32_at(bytes, PAGE_SIZE_AT as int)) || bytes.len() < u32_at(
        bytes,
        PAGE_SIZE_AT as int,
    ) {
        Err(Error::CorruptPage)
    } else {
        Ok(
            StoreModel {
                bytes,
                page_size: u32_at(bytes, PAGE_SIZE_AT as int),
                revision: u32_at(bytes, FORMAT_REVISION_AT as int) as u32,
            },
        )
    }
}

/// A page whose header states more entries than the page has room for is
/// corrupt, whatever else it holds.
pub proof fn lemma_too_many_entries_is_corrupt(store: StoreModel, n: u32)
    requires
        2 <= n <= store.page_count(),
        !count_fits(store.page_bytes(n as int)),
    ensures
        store.page(n) == Err::<PageModel, Error>(Error::CorruptPage),
{
}

/// One page, as it was read.
#[derive(Clone, Debug, PartialEq, Eq)]
pub struct Page {
    pub number: u32,
    pub kind: PageKind,
    pub next: u32,
    pub entries: Vec<Vec<u8>>,
}

/// The bytes that a vector of byte vectors holds.
pub open spec fn byte_seqs(v: Seq<Vec<u8>>) -> Seq<Seq<u8>> {
    Seq::new(v.len(), |i: int| v[i]@)
}

impl View for Page {
    type V = PageModel;

    open spec fn view(&self) -> PageModel {
        PageModel {
            number: self.number,
            kind: self.kind,
            next: self.next,
            entries: byte_seqs(self.entries@),
        }
    }
}

fn checksum(pg: &[u8]) -> (r: u32)
    ensures
        r == checksum_of(pg@, pg.len() as int / 4),
{
    let words = pg.len() / 4;
    let mut sum: u32 = SIGNATURE;
    let mut w: usize = 1;
    while w < words
        invariant
            1 <= w,
            words == pg.len() / 4,
            w <= words || w == 1,
            sum == checksum_of(pg@, w as int),
        decreases words - w,
    {
        sum = sum ^ read_u32(pg, 4 * w);
        w += 1;
    }
    assert(checksum_of(pg@, 0) == checksum_of(pg@, 1));
    sum
}

/// Whether entry `j` lies apart from all the entries before it.
fn apart_from_earlier(pg: &[u8], count: usize, j: usize) -> (r: bool)
    requires
        pg.len() <= 32768,
        PAGE_HEADER_LEN + 4 * count <= pg.len(),
        j < count,
    ensures
        r == (forall|i: int| 0 <= i < j ==> #[trigger] apart(pg@, i, j as int)),
{
    let len = pg.len();
    let start_j = PAGE_HEADER_LEN + read_u16(pg, len - 4 * (j + 1) + 2) as usize;
    let end_j = start_j + read_u16(pg, len - 4 * (j + 1)) as usize;
    let mut i: usize = 0;
    while i < j
        invariant
            i <= j < count,
            len == pg.len(),
            len <= 32768,
            PAGE_HEADER_LEN + 4 * count <= len,
            start_j == entry_start(pg@, j as int),
            end_j == entry_end(pg@, j as int),
            forall|k: int| 0 <= k < i ==> #[trigger] apart(pg@, k, j as int),
        decreases j - i,
    {
        let start_i = PAGE_HEADER_LEN + read_u16(pg, len - 4 * (i + 1) + 2) as usize;
        let end_i = start_i + read_u16(pg, len - 4 * (i + 1)) as usize;
        assert(start_i == entry_start(pg@, i as int));
        assert(end_i == entry_end(pg@, i as int));
        if !(end_i <= start_j || end_j <= start_i || end_i == start_i || end_j == start_j) {
            assert(!apart(pg@, i as int, j as int));
            return false;
        }
        i += 1;
    }
    true
}

/// Reads the bytes of one page.
fn parse_page(pg: &[u8], number: u32) -> (r: Result<Page, Error>)
    requires
        supported_page_size(pg.len() as int),
    ensures
        match r {
            Ok(page) => page_ok(pg@) && page@ == parsed(pg@, number),
            Err(e) => e == Error::CorruptPage && !page_ok(pg@),
        },
{
    let len = pg.len();
    if read_u32(pg, 0) != checksum(pg) {
        return Err(Error::CorruptPage);
    }
    let kind = match page_kind(read_u32(pg, FLAGS_AT)) {
        Some(kind) => kind,
        None => {
            return Err(Error::CorruptPage);
        },
    };
    let count = read_u16(pg, ENTRY_COUNT_AT) as usize;
    if PAGE_HEADER_LEN + 4 * count > len {
        return Err(Error::CorruptPage);
    }
    if kind == PageKind::Empty && count != 0 {
        return Err(Error::CorruptPage);
    }
    let next = read_u32(pg, NEXT_PAGE_AT);
    let limit = len - 4 * count;
    let mut entries: Vec<Vec<u8>> = Vec::new();
    let mut i: usize = 0;
    while i < count
        invariant
            i <= count,
            len == pg.len(),
            len <= 32768,
            count == entry_count(pg@),
            PAGE_HEADER_LEN + 4 * count <= len,
            limit == len - 4 * count,
            entries_inside(pg@, i as int),
            entries_apart(pg@, i as int),
            entries@.len() == i,
            forall|k: int| 0 <= k < i ==> (#[trigger] entries@[k])@ == entry_bytes(pg@, k),
        decreases count - i,
    {
        let start = PAGE_HEADER_LEN + read_u16(pg, len - 4 * (i + 1) + 2) as usize;
        let end = start + read_u16(pg, len - 4 * (i + 1)) as usize;
        assert(start == entry_start(pg@, i as int));
        assert(end == entry_end(pg@, i as int));
        if end > limit {
            assert(!entries_inside(pg@, count as int));
            return Err(Error::CorruptPage);
        }
        if !apart_from_earlier(pg, count, i) {
            assert(!entries_apart(pg@, count as int));
            return Err(Error::CorruptPage);
        }
        entries.push(copy_range(pg, start, end));
        i += 1;
    }
    let page = Page { number, kind, next, entries };
    assert(page@.entries =~= parsed(pg@, number).entries);
    Ok(page)
}

/// A store that was opened: the bytes of its file, and what its header says.
pub struct Store {
    bytes: Vec<u8>,
    page_size: usize,
    revision: u32,
}

impl View for Store {
    type V = StoreModel;

    closed spec fn view(&self) -> StoreModel {
        StoreModel {
            bytes: self.bytes@,
            page_size: self.page_size as int,
            revision: self.revision,
        }
    }
}

impl Store {
    /// Every store that exists has pages of a supported size, and at least
    /// the one that holds its header.
    #[verifier::type_invariant]
    pub open spec fn well_formed(self) -> bool {
        self@.well_formed()
    }

    /// Opens a store from the bytes of its file, where the revisions of the
    /// format from `lowest` to `highest` are supported.
    pub fn open(bytes: Vec<u8>, lowest: u32, highest: u32) -> (r: Result<Store, Error>)
        ensures
            match r {
                Ok(store) => opened(bytes@, lowest, highest) == Ok::<StoreModel, Error>(store@)
                    && store@.well_formed(),
                Err(e) => opened(bytes@, lowest, highest) == Err::<StoreModel, Error>(e),
            },
    {
        if bytes.len() < STORE_HEADER_LEN || read_u32(bytes.as_slice(), SIGNATURE_AT)
            != SIGNATURE {
            return Err(Error::CorruptPage);
        }
        let version = read_u32(bytes.as_slice(), FORMAT_VERSION_AT);
        let revision = read_u32(bytes.as_slice(), FORMAT_REVISION_AT);
        if version != FORMAT_VERSION || revision < lowest || revision > highest {
            return Err(Error::UnsupportedVersion);
        }
        let size = read_u32(bytes.as_slice(), PAGE_SIZE_AT);
        if !(size == 2048 || size == 4096 || size == 8192 || size == 16384 || size == 32768) {
            return Err(Error::CorruptPage);
        }
        if bytes.len() < size as usize {
            return Err(Error::CorruptPage);
        }
        Ok(Store { bytes, page_size: size as usize, revision })
    }

    /// Opens a store of a supported revision from the bytes of its file.
    pub fn open_supported(bytes: Vec<u8>) -> (r: Result<Store, Error>)
        ensures
            match r {
                Ok(store) => opened(bytes@, LOWEST_REVISION, HIGHEST_REVISION) == Ok::<
                    StoreModel,
                    Error,
                >(store@) && store@.well_formed(),
                Err(e) => opened(bytes@, LOWEST_REVISION, HIGHEST_REVISION) == Err::<
                    StoreModel,
                    Error,
                >(e),
            },
    {
        Store::open(bytes, LOWEST_REVISION, HIGHEST_REVISION)
    }

    /// The size of the pages.
    pub fn page_size(&self) -> (r: usize)
        ensures
            r == self@.page_size,
            supported_page_size(r as int),
    {
        proof {
            use_type_invariant(self);
        }
        self.page_size
    }

    /// The revision of the format.
    pub fn revision(&self) -> (r: u32)
        ensures
            r == self@.revision,
    {
        self.revision
    }

    /// The number of whole pages of the file.
    pub fn page_count(&self) -> (r: usize)
        ensures
            r == self@.page_count(),
            r >= 1,
    {
        proof {
            use_type_invariant(self);
            assert(self.bytes.len() as int / self.page_size as int >= 1) by (nonlinear_arith)
                requires
                    self.bytes.len() >= self.page_size,
                    self.page_size > 0,
            ;
        }
        self.bytes.len() / self.page_size
    }

    /// Reads page `n`. Pages are numbered from 1, and the first one holds
    /// the header of the store.
    pub fn read_page(&self, n: u32) -> (r: Result<Page, Error>)
        ensures
            match r {
                Ok(page) => self@.page(n) == Ok::<PageModel, Error>(page@),
                Err(e) => self@.page(n) == Err::<PageModel, Error>(e),
            },
    {
        proof {
            use_type_invariant(self);
        }
        let count = self.page_count();
        if n == 0 || n as usize > count {
            return Err(Error::OutOfRange);
        }
        if n == 1 {
            let page = Page { number: 1, kind: PageKind::Empty, next: 0, entries: Vec::new() };
            assert(page@.entries =~= header_page().entries);
            return Ok(page);
        }
        let size = self.page_size;
        assert((n as int) * (size as int) <= self.bytes.len() && (n - 1) * size >= 0 && (n - 1)
            * size + size == n * size) by (nonlinear_arith)
            requires
                1 <= n <= self.bytes.len() as int / size as int,
                size > 0,
        ;
        let from = (n as usize - 1) * size;
        let pg = &self.bytes.as_slice()[from..from + size];
        assert(pg@ == self@.page_bytes(n as int));
        parse_page(pg, n)
    }
}

} // verus!
