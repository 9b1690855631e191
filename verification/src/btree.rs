//! The tree navigator: from the root of a tree down to its leaves, and along
//! the leaves from each one to the next.
//!
//! An entry of a root or branch page holds the 16-bit length of a key, the
//! key, and the number of a child page in 32 bits. The child holds the keys
//! up to that key; the last child holds all that are greater. An entry of a
//! leaf holds the 16-bit length of a key, the key, and the record. Keys are
//! ordered byte by byte, a key before every longer key that begins with it.
//!
//! A leaf names the leaf that follows it. Neither the way down nor the way
//! along the leaves visits more pages than the store has, so that pages
//! which point at each other in a circle end the walk instead of keeping it
//! going for ever.

use vstd::prelude::*;

use crate::bytes::{copy_range, read_u16, read_u32, u16_at, u32_at};
use crate::error::Error;
use crate::page::{byte_seqs, Page, PageKind, PageModel, Store, StoreModel};

verus! {

/// A record as a leaf holds it: its key and its bytes.
#[derive(Clone, Debug, PartialEq, Eq)]
pub struct RawRecord {
    pub key: Vec<u8>,
    pub data: Vec<u8>,
}

/// A record of a leaf as plain values.
pub struct RawModel {
    pub key: Seq<u8>,
    pub data: Seq<u8>,
}

impl View for RawRecord {
    type V = RawModel;

    open spec fn view(&self) -> RawModel {
        RawModel { key: self.key@, data: self.data@ }
    }
}

/// The plain values of a vector of records.
pub open spec fn raws(v: Seq<RawRecord>) -> Seq<RawModel> {
    Seq::new(v.len(), |i: int| v[i]@)
}

/// What a walk along the leaves gives: the records that were reached, and
/// the fault that ended the walk, if one did.
pub type Outcome = (Seq<RawModel>, Option<Error>);

/// Whether the page holds records.
pub open spec fn is_leaf(kind: PageKind) -> bool {
    kind == PageKind::Leaf || kind == PageKind::LongValue
}

/// Whether the bytes are an entry of a leaf: they hold the key that they
/// announce.
pub open spec fn leaf_entry_ok(e: Seq<u8>) -> bool {
    e.len() >= 2 && 2 + u16_at(e, 0) <= e.len()
}

/// The record of an entry of a leaf.
pub open spec fn leaf_record(e: Seq<u8>) -> RawModel {
    RawModel {
        key: e.subrange(2, 2 + u16_at(e, 0)),
        data: e.subrange(2 + u16_at(e, 0), e.len() as int),
    }
}

/// Whether the bytes are an entry of a root or branch page: a key and a page
/// number, and nothing more.
pub open spec fn branch_entry_ok(e: Seq<u8>) -> bool {
    e.len() >= 6 && e.len() == 6 + u16_at(e, 0)
}

/// The key of an entry of a root or branch page.
pub open spec fn branch_key(e: Seq<u8>) -> Seq<u8> {
    e.subrange(2, 2 + u16_at(e, 0))
}

/// The child page of an entry of a root or branch page.
pub open spec fn branch_child(e: Seq<u8>) -> u32 {
    u32_at(e, 2 + u16_at(e, 0)) as u32
}

/// Whether key `a` comes before key `b` or is equal to it, byte by byte.
pub open spec fn key_le(a: Seq<u8>, b: Seq<u8>) -> bool
    decreases a.len(),
{
    if a.len() == 0 {
        true
    } else if b.len() == 0 {
        false
    } else if a[0] != b[0] {
        a[0] < b[0]
    } else {
        key_le(a.skip(1), b.skip(1))
    }
}

/// Whether a walk that looks for `key` stops at entry `i` of a root or
/// branch page: at an entry that is damaged, or whose key is not before the
/// one looked for. A walk to the leftmost leaf stops at once.
pub open spec fn stops_at(e: Seq<u8>, key: Option<Seq<u8>>) -> bool {
    match key {
        None => true,
        Some(k) => !branch_entry_ok(e) || key_le(k, branch_key(e)),
    }
}

/// The entry through which a walk goes down, looked for from entry `from`
/// on: the first one at which the walk stops, else the last one.
pub open spec fn pick(entries: Seq<Seq<u8>>, key: Option<Seq<u8>>, from: int) -> int
    decreases entries.len() - from,
{
    if from >= entries.len() - 1 || stops_at(entries[from], key) {
        from
    } else {
        pick(entries, key, from + 1)
    }
}

/// The leaf that a walk from page `n` down reaches, where it may visit
/// `fuel` pages: the leftmost leaf, or with a key the leaf in which the key
/// belongs. The walk fails where a page cannot be read, where a page that is
/// no leaf has no entry or a damaged one to go through, and where the pages
/// run out.
pub open spec fn descend(store: StoreModel, n: u32, key: Option<Seq<u8>>, fuel: nat) -> Result<
    PageModel,
    Error,
>
    decreases fuel,
{
    if fuel == 0 {
        Err(Error::CorruptBTree)
    } else {
        match store.page(n) {
            Err(e) => Err(e),
            Ok(p) => if is_leaf(p.kind) {
                Ok(p)
            } else if p.entries.len() == 0 || !branch_entry_ok(
                p.entries[pick(p.entries, key, 0)],
            ) {
                Err(Error::CorruptBTree)
            } else {
                descend(
                    store,
                    branch_child(p.entries[pick(p.entries, key, 0)]),
                    key,
                    (fuel - 1) as nat,
                )
            },
        }
    }
}

/// What a walk gives that stands before entry `slot` of the leaf `p` and may
/// visit `fuel` more pages: the records from there to the end of the last
/// leaf, or up to the first fault. A damaged entry, a page after a leaf that
/// is no leaf, and running out of pages are faults of the tree.
pub open spec fn trail(store: StoreModel, p: PageModel, slot: int, fuel: nat) -> Outcome
    decreases fuel, p.entries.len() - slot,
{
    if 0 <= slot < p.entries.len() {
        if leaf_entry_ok(p.entries[slot]) {
            let (more, fault) = trail(store, p, slot + 1, fuel);
            (seq![leaf_record(p.entries[slot])] + more, fault)
        } else {
            (Seq::empty(), Some(Error::CorruptBTree))
        }
    } else if slot < 0 || p.next == 0 {
        (Seq::empty(), None)
    } else if fuel == 0 {
        (Seq::empty(), Some(Error::CorruptBTree))
    } else {
        match store.page(p.next) {
            Err(e) => (Seq::empty(), Some(e)),
            Ok(q) => if is_leaf(q.kind) {
                trail(store, q, 0, (fuel - 1) as nat)
            } else {
                (Seq::empty(), Some(Error::CorruptBTree))
            },
        }
    }
}

/// What a walk over the whole tree below `root` gives.
pub open spec fn scan_of(store: StoreModel, root: u32) -> Outcome {
    match descend(store, root, None, store.page_count() as nat) {
        Err(e) => (Seq::empty(), Some(e)),
        Ok(leaf) => trail(store, leaf, 0, store.page_count() as nat),
    }
}

/// The first of the records from `from` on whose key is not before `key`;
/// the number of records where there is none.
pub open spec fn first_from(recs: Seq<RawModel>, key: Seq<u8>, from: int) -> int
    decreases recs.len() - from,
{
    if from >= recs.len() || key_le(key, recs[from].key) {
        from
    } else {
        first_from(recs, key, from + 1)
    }
}

/// Whether key `a` comes before key `b` or is equal to it.
pub fn key_at_most(a: &[u8], b: &[u8]) -> (r: bool)
    ensures
        r == key_le(a@, b@),
{
    let mut i: usize = 0;
    assert(a@.skip(0) == a@ && b@.skip(0) == b@);
    while i < a.len()
        invariant
            i <= a.len(),
            i <= b.len(),
            key_le(a@, b@) == key_le(a@.skip(i as int), b@.skip(i as int)),
        decreases a.len() - i,
    {
        if i >= b.len() {
            return false;
        }
        if a[i] != b[i] {
            return a[i] < b[i];
        }
        assert(a@.skip(i as int).skip(1) == a@.skip(i + 1));
        assert(b@.skip(i as int).skip(1) == b@.skip(i + 1));
        i += 1;
    }
    true
}

/// Reads an entry of a leaf.
pub fn read_leaf_entry(e: &[u8]) -> (r: Option<RawRecord>)
    ensures
        match r {
            Some(rec) => leaf_entry_ok(e@) && rec@ == leaf_record(e@),
            None => !leaf_entry_ok(e@),
        },
{
    if e.len() < 2 {
        return None;
    }
    let key_len = read_u16(e, 0) as usize;
    if key_len > e.len() - 2 {
        return None;
    }
    Some(RawRecord { key: copy_range(e, 2, 2 + key_len), data: copy_range(e, 2 + key_len, e.len()) })
}

/// Finds the entry through which a walk goes down.
fn pick_entry(entries: &Vec<Vec<u8>>, key: Option<&[u8]>) -> (r: usize)
    requires
        entries.len() > 0,
    ensures
        r == pick(
            byte_seqs(entries@),
            match key {
                Some(k) => Some(k@),
                None => None,
            },
            0,
        ),
        r < entries.len(),
{
    let ghost sought = match key {
        Some(k) => Some(k@),
        None => None,
    };
    let ghost all = byte_seqs(entries@);
    let mut i: usize = 0;
    while i < entries.len() - 1
        invariant
            i < entries.len(),
            all == byte_seqs(entries@),
            sought == (match key {
                Some(k) => Some(k@),
                None => None,
            }),
            pick(all, sought, 0) == pick(all, sought, i as int),
        decreases entries.len() - i,
    {
        match key {
            None => {
                return i;
            },
            Some(k) => {
                let e = entries[i].as_slice();
                assert(e@ == all[i as int]);
                if e.len() < 6 {
                    return i;
                }
                let key_len = read_u16(e, 0) as usize;
                if e.len() != 6 + key_len {
                    return i;
                }
                let entry_key = copy_range(e, 2, 2 + key_len);
                if key_at_most(k, entry_key.as_slice()) {
                    return i;
                }
            },
        }
        i += 1;
    }
    i
}

/// Walks from page `root` down to a leaf: to the leftmost one, or with a
/// key to the one in which the key belongs.
pub fn find_leaf(store: &Store, root: u32, key: Option<&[u8]>) -> (r: Result<Page, Error>)
    ensures
        match r {
            Ok(page) => descend(
                store@,
                root,
                match key {
                    Some(k) => Some(k@),
                    None => None,
                },
                store@.page_count() as nat,
            ) == Ok::<PageModel, Error>(page@),
            Err(e) => descend(
                store@,
                root,
                match key {
                    Some(k) => Some(k@),
                    None => None,
                },
                store@.page_count() as nat,
            ) == Err::<PageModel, Error>(e),
        },
{
    let ghost sought = match key {
        Some(k) => Some(k@),
        None => None,
    };
    let mut n = root;
    let mut fuel = store.page_count();
    loop
        invariant
            sought == (match key {
                Some(k) => Some(k@),
                None => None,
            }),
            descend(store@, root, sought, store@.page_count() as nat) == descend(
                store@,
                n,
                sought,
                fuel as nat,
            ),
        decreases fuel,
    {
        if fuel == 0 {
            return Err(Error::CorruptBTree);
        }
        let page = match store.read_page(n) {
            Ok(page) => page,
            Err(e) => {
                return Err(e);
            },
        };
        if page.kind == PageKind::Leaf || page.kind == PageKind::LongValue {
            return Ok(page);
        }
        if page.entries.len() == 0 {
            return Err(Error::CorruptBTree);
        }
        let i = pick_entry(&page.entries, key);
        let e = page.entries[i].as_slice();
        assert(e@ == page@.entries[i as int]);
        if e.len() < 6 {
            return Err(Error::CorruptBTree);
        }
        let key_len = read_u16(e, 0) as usize;
        if e.len() != 6 + key_len {
            return Err(Error::CorruptBTree);
        }
        n = read_u32(e, 2 + key_len);
        fuel = fuel - 1;
    }
}

/// A place in the walk along the leaves of one tree.
pub struct Cursor<'a> {
    store: &'a Store,
    root: u32,
    page: Page,
    slot: usize,
    fuel: usize,
}

impl<'a> Cursor<'a> {
    /// The store that the cursor walks in.
    pub closed spec fn store(&self) -> StoreModel {
        self.store@
    }

    /// The root of the tree.
    pub closed spec fn root(&self) -> u32 {
        self.root
    }

    /// What the walk gives from here on.
    pub closed spec fn rest(&self) -> Outcome {
        trail(self.store@, self.page@, self.slot as int, self.fuel as nat)
    }

    /// Opens a cursor on the tree below `root`: before the first record of
    /// the tree, or with a key before the first record of the leaf in which
    /// the key belongs.
    pub fn open_at(store: &'a Store, root: u32, key: Option<&[u8]>) -> (r: Result<
        Cursor<'a>,
        Error,
    >)
        ensures
            match r {
                Ok(cursor) => {
                    &&& cursor.store() == store@
                    &&& cursor.root() == root
                    &&& descend(
                        store@,
                        root,
                        match key {
                            Some(k) => Some(k@),
                            None => None,
                        },
                        store@.page_count() as nat,
                    ) matches Ok(leaf)
                    &&& cursor.rest() == trail(store@, leaf, 0, store@.page_count() as nat)
                },
                Err(e) => descend(
                    store@,
                    root,
                    match key {
                        Some(k) => Some(k@),
                        None => None,
                    },
                    store@.page_count() as nat,
                ) == Err::<PageModel, Error>(e),
            },
    {
        match find_leaf(store, root, key) {
            Ok(page) => Ok(Cursor { store, root, page, slot: 0, fuel: store.page_count() }),
            Err(e) => Err(e),
        }
    }

    /// Opens a cursor on the tree below `root`, before the first record.
    pub fn open(store: &'a Store, root: u32) -> (r: Result<Cursor<'a>, Error>)
        ensures
            match r {
                Ok(cursor) => cursor.store() == store@ && cursor.root() == root && scan_of(
                    store@,
                    root,
                ) == cursor.rest(),
                Err(e) => scan_of(store@, root) == (Seq::<RawModel>::empty(), Some(e)),
            },
    {
        Cursor::open_at(store, root, None)
    }

    /// Goes back before the first record of the tree and gives that record.
    /// Where the way down to the first leaf fails, the cursor stays where it
    /// is.
    pub fn first(&mut self) -> (r: Result<Option<RawRecord>, Error>)
        ensures
            final(self).store() == old(self).store(),
            final(self).root() == old(self).root(),
            match descend(
                old(self).store(),
                old(self).root(),
                None,
                old(self).store().page_count() as nat,
            ) {
                Err(e) => r == Err::<Option<RawRecord>, Error>(e) && final(self).rest() == old(
                    self,
                ).rest(),
                Ok(leaf) => steps(
                    trail(old(self).store(), leaf, 0, old(self).store().page_count() as nat),
                    r,
                    final(self).rest(),
                ),
            },
    {
        match find_leaf(self.store, self.root, None) {
            Ok(page) => {
                self.page = page;
                self.slot = 0;
                self.fuel = self.store.page_count();
                self.next()
            },
            Err(e) => Err(e),
        }
    }

    /// Gives the next record, or nothing at the end of the tree. After a
    /// fault the cursor stays where it is, and gives the fault again.
    pub fn next(&mut self) -> (r: Result<Option<RawRecord>, Error>)
        ensures
            final(self).store() == old(self).store(),
            final(self).root() == old(self).root(),
            steps(old(self).rest(), r, final(self).rest()),
    {
        loop
            invariant
                self.store() == old(self).store(),
                self.root() == old(self).root(),
                self.rest() == old(self).rest(),
            decreases self.fuel, self.page.entries.len() - self.slot,
        {
            if self.slot < self.page.entries.len() {
                assert(self.page.entries@[self.slot as int]@ == self.page@.entries[self.slot as int]);
                match read_leaf_entry(self.page.entries[self.slot].as_slice()) {
                    Some(rec) => {
                        let ghost before = self.rest();
                        self.slot = self.slot + 1;
                        proof {
                            let after = self.rest();
                            assert(before.0 == seq![rec@] + after.0);
                            assert(before.0.skip(1) =~= after.0);
                            assert(before.0[0] == rec@);
                        }
                        return Ok(Some(rec));
                    },
                    None => {
                        return Err(Error::CorruptBTree);
                    },
                }
            }
            if self.page.next == 0 {
                return Ok(None);
            }
            if self.fuel == 0 {
                return Err(Error::CorruptBTree);
            }
            match self.store.read_page(self.page.next) {
                Err(e) => {
                    return Err(e);
                },
                Ok(page) => {
                    if !(page.kind == PageKind::Leaf || page.kind == PageKind::LongValue) {
                        return Err(Error::CorruptBTree);
                    }
                    self.page = page;
                    self.slot = 0;
                    self.fuel = self.fuel - 1;
                },
            }
        }
    }

    /// Gives the first record from here on whose key is not before `key`,
    /// and passes over the records before it.
    pub fn advance_to(&mut self, key: &[u8]) -> (r: Result<Option<RawRecord>, Error>)
        ensures
            final(self).store() == old(self).store(),
            final(self).root() == old(self).root(),
            steps(
                (
                    old(self).rest().0.skip(first_from(old(self).rest().0, key@, 0)),
                    old(self).rest().1,
                ),
                r,
                final(self).rest(),
            ),
    {
        let ghost all = self.rest();
        let ghost mut passed: int = 0;
        assert(all.0.skip(0) == all.0);
        loop
            invariant
                self.store() == old(self).store(),
                self.root() == old(self).root(),
                all == old(self).rest(),
                0 <= passed <= all.0.len(),
                self.rest() == (all.0.skip(passed), all.1),
                first_from(all.0, key@, 0) == first_from(all.0, key@, passed),
            decreases all.0.len() - passed,
        {
            let step = self.next();
            proof {
                if passed < all.0.len() {
                    assert(all.0.skip(passed)[0] == all.0[passed]);
                    assert(all.0.skip(passed).skip(1) == all.0.skip(passed + 1));
                } else {
                    assert(first_from(all.0, key@, passed) == passed);
                }
            }
            match step {
                Ok(Some(rec)) => {
                    if key_at_most(key, rec.key.as_slice()) {
                        assert(first_from(all.0, key@, passed) == passed);
                        return Ok(Some(rec));
                    }
                    proof {
                        assert(first_from(all.0, key@, passed) == first_from(
                            all.0,
                            key@,
                            passed + 1,
                        ));
                        passed = passed + 1;
                    }
                },
                Ok(None) => {
                    return Ok(None);
                },
                Err(e) => {
                    return Err(e);
                },
            }
        }
    }

    /// Goes to the leaf in which `key` belongs and gives the first record
    /// from there on whose key is not before `key`. Where the way down
    /// fails, the cursor stays where it is.
    pub fn seek(&mut self, key: &[u8]) -> (r: Result<Option<RawRecord>, Error>)
        ensures
            final(self).store() == old(self).store(),
            final(self).root() == old(self).root(),
            match descend(
                old(self).store(),
                old(self).root(),
                Some(key@),
                old(self).store().page_count() as nat,
            ) {
                Err(e) => r == Err::<Option<RawRecord>, Error>(e) && final(self).rest() == old(
                    self,
                ).rest(),
                Ok(leaf) => {
                    let all = trail(
                        old(self).store(),
                        leaf,
                        0,
                        old(self).store().page_count() as nat,
                    );
                    steps((all.0.skip(first_from(all.0, key@, 0)), all.1), r, final(self).rest())
                },
            },
    {
        match find_leaf(self.store, self.root, Some(key)) {
            Err(e) => Err(e),
            Ok(page) => {
                self.page = page;
                self.slot = 0;
                self.fuel = self.store.page_count();
                self.advance_to(key)
            },
        }
    }
}

/// Whether a step of a cursor answers to what the walk had to give before
/// it: the first record, with the rest left for later; at the end of the
/// records the fault that ended the walk, which stays; else nothing.
pub open spec fn steps(before: Outcome, r: Result<Option<RawRecord>, Error>, after: Outcome) -> bool {
    if before.0.len() > 0 {
        &&& r matches Ok(Some(rec))
        &&& rec@ == before.0[0]
        &&& after == (before.0.skip(1), before.1)
    } else {
        match before.1 {
            Some(e) => r == Err::<Option<RawRecord>, Error>(e) && after == before,
            None => r == Ok::<Option<RawRecord>, Error>(None) && after == before,
        }
    }
}

/// Walks over the whole tree below `root` and gives its records in the
/// order of the leaves, with the fault that ended the walk, if one did.
pub fn scan(store: &Store, root: u32) -> (r: (Vec<RawRecord>, Option<Error>))
    ensures
        (raws(r.0@), r.1) == scan_of(store@, root),
{
    let mut out: Vec<RawRecord> = Vec::new();
    let mut cursor = match Cursor::open(store, root) {
        Ok(cursor) => cursor,
        Err(e) => {
            assert(raws(out@) =~= Seq::empty());
            return (out, Some(e));
        },
    };
    let ghost all = cursor.rest();
    assert(all.0.skip(0) == all.0);
    loop
        invariant
            all == scan_of(store@, root),
            out@.len() <= all.0.len(),
            raws(out@) == all.0.take(out@.len() as int),
            cursor.rest() == (all.0.skip(out@.len() as int), all.1),
        decreases all.0.len() - out@.len(),
    {
        let ghost done = out@.len() as int;
        match cursor.next() {
            Ok(Some(rec)) => {
                out.push(rec);
                proof {
                    assert(all.0.skip(done)[0] == all.0[done]);
                    assert(raws(out@) =~= all.0.take(done + 1));
                    assert(all.0.skip(done).skip(1) == all.0.skip(done + 1));
                }
            },
            Ok(None) => {
                assert(all.0.take(done) == all.0);
                return (out, None);
            },
            Err(e) => {
                assert(all.0.take(done) == all.0);
                return (out, Some(e));
            },
        }
    }
}

} // verus!
