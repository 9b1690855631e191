//! The long-value resolver: values that are too long for a record are kept
//! in a tree of their own, cut into segments.
//!
//! The key of a segment is eight bytes: the identifier of the long value and
//! the place of the segment in it, 32 bits each, highest byte first. So the
//! segments of one long value stand together in the tree and in their order.

use vstd::prelude::*;

use crate::btree::{descend, first_from, key_le, trail, Cursor, Outcome, RawModel, RawRecord};
use crate::bytes::{read_u32_be, u32_be_at};
use crate::error::Error;
use crate::page::{Store, StoreModel};

verus! {

/// The key of the segment of the long value `id` that begins at `place`.
pub open spec fn segment_key(id: u32, place: u32) -> Seq<u8> {
    seq![
        (id / 16777216) as u8,
        ((id / 65536) % 256) as u8,
        ((id / 256) % 256) as u8,
        (id % 256) as u8,
        (place / 16777216) as u8,
        ((place / 65536) % 256) as u8,
        ((place / 256) % 256) as u8,
        (place % 256) as u8,
    ]
}

/// Whether the record is a segment of the long value `id`.
pub open spec fn is_segment(r: RawModel, id: u32) -> bool {
    r.key.len() == 8 && u32_be_at(r.key, 0) == id
}

/// Where the run of segments of `id` ends that begins at record `from`.
pub open spec fn run_end(recs: Seq<RawModel>, id: u32, from: int) -> int
    decreases recs.len() - from,
{
    if from < 0 || from >= recs.len() || !is_segment(recs[from], id) {
        from
    } else {
        run_end(recs, id, from + 1)
    }
}

/// The bytes of the records from `from` up to `to`, one after another.
pub open spec fn joined(recs: Seq<RawModel>, from: int, to: int) -> Seq<u8>
    decreases to - from,
{
    if to <= from {
        Seq::empty()
    } else {
        joined(recs, from, to - 1) + recs[to - 1].data
    }
}

/// What a walk has to give for the long value `id`: the bytes of the run of
/// its segments that begins at the first record not before its first key. A
/// fault that ends the walk before the run is seen to end is the answer;
/// where the walk finds no segment, the long value dangles.
pub open spec fn gathered(walk: Outcome, id: u32) -> Result<Seq<u8>, Error> {
    let start = first_from(walk.0, segment_key(id, 0), 0);
    let end = run_end(walk.0, id, start);
    if end >= walk.0.len() && walk.1 is Some {
        Err(walk.1.unwrap())
    } else if end <= start {
        Err(Error::DanglingLongValue)
    } else {
        Ok(joined(walk.0, start, end))
    }
}

/// What resolving the long value `id` in the tree below `root` gives.
pub open spec fn resolved(store: StoreModel, root: u32, id: u32) -> Result<Seq<u8>, Error> {
    match descend(store, root, Some(segment_key(id, 0)), store.page_count() as nat) {
        Err(e) => Err(e),
        Ok(leaf) => gathered(trail(store, leaf, 0, store.page_count() as nat), id),
    }
}

/// Builds the key of a segment.
pub fn make_segment_key(id: u32, place: u32) -> (r: Vec<u8>)
    ensures
        r@ == segment_key(id, place),
{
    let mut r: Vec<u8> = Vec::new();
    r.push((id / 16777216) as u8);
    r.push(((id / 65536) % 256) as u8);
    r.push(((id / 256) % 256) as u8);
    r.push((id % 256) as u8);
    r.push((place / 16777216) as u8);
    r.push(((place / 65536) % 256) as u8);
    r.push(((place / 256) % 256) as u8);
    r.push((place % 256) as u8);
    assert(r@ =~= segment_key(id, place));
    r
}

/// Whether a record is a segment of the long value `id`.
pub fn segment_of(rec: &RawRecord, id: u32) -> (r: bool)
    ensures
        r == is_segment(rec@, id),
{
    rec.key.len() == 8 && read_u32_be(rec.key.as_slice(), 0) == id
}

/// Appends the bytes of `from` to `to`.
fn append_bytes(to: &mut Vec<u8>, from: &Vec<u8>)
    ensures
        final(to)@ == old(to)@ + from@,
{
    let mut i: usize = 0;
    assert(to@ =~= old(to)@ + from@.take(0));
    while i < from.len()
        invariant
            i <= from.len(),
            to@ == old(to)@ + from@.take(i as int),
        decreases from.len() - i,
    {
        to.push(from[i]);
        assert(to@ =~= old(to)@ + from@.take(i + 1));
        i += 1;
    }
    assert(from@.take(from.len() as int) == from@);
}

/// Gathers the segments of the long value `id` from a cursor.
fn gather(cursor: &mut Cursor, id: u32, key: &[u8]) -> (r: Result<Vec<u8>, Error>)
    requires
        key@ == segment_key(id, 0),
    ensures
        match r {
            Ok(bytes) => gathered(old(cursor).rest(), id) == Ok::<Seq<u8>, Error>(bytes@),
            Err(e) => gathered(old(cursor).rest(), id) == Err::<Seq<u8>, Error>(e),
        },
{
    let ghost walk = cursor.rest();
    let ghost start = first_from(walk.0, key@, 0);
    let mut out: Vec<u8> = Vec::new();
    let mut step = cursor.advance_to(key);
    let ghost mut at: int = start;
    let mut any = false;
    proof {
        lemma_first_from_bounds(walk.0, key@, 0);
        if start < walk.0.len() {
            assert(walk.0.skip(start)[0] == walk.0[start]);
            assert(walk.0.skip(start).skip(1) == walk.0.skip(start + 1));
        }
    }
    loop
        invariant
            key@ == segment_key(id, 0),
            walk == old(cursor).rest(),
            start == first_from(walk.0, key@, 0),
            0 <= start <= at <= walk.0.len(),
            run_end(walk.0, id, start) == run_end(walk.0, id, at),
            out@ == joined(walk.0, start, at),
            any == (at > start),
            at < walk.0.len() ==> (step matches Ok(Some(rec)) && rec@ == walk.0[at]
                && cursor.rest() == (walk.0.skip(at + 1), walk.1)),
            at >= walk.0.len() ==> (match walk.1 {
                Some(e) => step == Err::<Option<RawRecord>, Error>(e),
                None => step == Ok::<Option<RawRecord>, Error>(None),
            }) && cursor.rest() == (Seq::<RawModel>::empty(), walk.1),
        decreases walk.0.len() - at,
    {
        match step {
            Err(e) => {
                assert(run_end(walk.0, id, at) == at);
                return Err(e);
            },
            Ok(None) => {
                assert(run_end(walk.0, id, at) == at);
                return if any {
                    Ok(out)
                } else {
                    Err(Error::DanglingLongValue)
                };
            },
            Ok(Some(rec)) => {
                if !segment_of(&rec, id) {
                    assert(run_end(walk.0, id, at) == at);
                    return if any {
                        Ok(out)
                    } else {
                        Err(Error::DanglingLongValue)
                    };
                }
                append_bytes(&mut out, &rec.data);
                any = true;
                step = cursor.next();
                proof {
                    assert(run_end(walk.0, id, at) == run_end(walk.0, id, at + 1));
                    at = at + 1;
                    if at < walk.0.len() {
                        assert(walk.0.skip(at)[0] == walk.0[at]);
                        assert(walk.0.skip(at).skip(1) == walk.0.skip(at + 1));
                    } else {
                        assert(walk.0.skip(at) =~= Seq::<RawModel>::empty());
                    }
                }
            },
        }
    }
}

/// Resolves the long value `id` in the tree below `root`: finds its first
/// segment and joins the bytes of its segments in their order.
pub fn resolve(store: &Store, root: u32, id: u32) -> (r: Result<Vec<u8>, Error>)
    ensures
        match r {
            Ok(bytes) => resolved(store@, root, id) == Ok::<Seq<u8>, Error>(bytes@),
            Err(e) => resolved(store@, root, id) == Err::<Seq<u8>, Error>(e),
        },
{
    let key = make_segment_key(id, 0);
    match Cursor::open_at(store, root, Some(key.as_slice())) {
        Ok(mut cursor) => gather(&mut cursor, id, key.as_slice()),
        Err(e) => Err(e),
    }
}

/// Resolves a long value for a field of a report: a long value that cannot
/// be resolved leaves the field empty, and the fault is handed back beside
/// it, so that the scan of the table goes on.
pub fn resolve_or_empty(store: &Store, root: u32, id: u32) -> (r: (Vec<u8>, Option<Error>))
    ensures
        match resolved(store@, root, id) {
            Ok(bytes) => r.0@ == bytes && r.1 is None,
            Err(e) => r.0@ == Seq::<u8>::empty() && r.1 == Some(e),
        },
{
    match resolve(store, root, id) {
        Ok(bytes) => (bytes, None),
        Err(e) => (Vec::new(), Some(e)),
    }
}

/// The first record that is not before a key lies among the records or at
/// their end.
proof fn lemma_first_from_bounds(recs: Seq<RawModel>, key: Seq<u8>, from: int)
    requires
        0 <= from <= recs.len(),
    ensures
        from <= first_from(recs, key, from) <= recs.len(),
    decreases recs.len() - from,
{
    if from < recs.len() && !key_le(key, recs[from].key) {
        lemma_first_from_bounds(recs, key, from + 1);
    }
}

/// A long value of which the walk finds no segment dangles: where the walk
/// along the leaves ends without a fault and none of its records is a
/// segment of the long value, resolving it gives `DanglingLongValue`, and the
/// field that refers to it is left empty.
pub proof fn lemma_no_segment_is_dangling(store: StoreModel, root: u32, id: u32)
    requires
        descend(store, root, Some(segment_key(id, 0)), store.page_count() as nat) matches Ok(leaf)
            && trail(store, leaf, 0, store.page_count() as nat).1 is None && forall|i: int|
            0 <= i < trail(store, leaf, 0, store.page_count() as nat).0.len() ==> !is_segment(
                #[trigger] trail(store, leaf, 0, store.page_count() as nat).0[i],
                id,
            ),
    ensures
        resolved(store, root, id) == Err::<Seq<u8>, Error>(Error::DanglingLongValue),
{
    let leaf = descend(store, root, Some(segment_key(id, 0)), store.page_count() as nat).unwrap();
    let walk = trail(store, leaf, 0, store.page_count() as nat);
    let start = first_from(walk.0, segment_key(id, 0), 0);
    lemma_first_from_bounds(walk.0, segment_key(id, 0), 0);
    if start < walk.0.len() {
        assert(!is_segment(walk.0[start], id));
    }
    assert(run_end(walk.0, id, start) == start);
}

} // verus!
