//! What holds of every walk over a tree: pages that point at each other in a
//! circle end the walk with a fault, and the walk along the leaves gives the
//! records that descending from the root into every child in turn gives.

use vstd::prelude::*;
use vstd::set_lib::{lemma_int_range, lemma_len_subset, set_int_range};

use crate::btree::{
    branch_child, branch_entry_ok, descend, is_leaf, leaf_entry_ok, leaf_record, pick, scan_of,
    trail, RawModel,
};
use crate::error::Error;
use crate::page::{count_fits, page_ok, PageModel, StoreModel};

verus! {

/// Whether page `n` is a leaf of which every entry is sound.
pub open spec fn leaf_ok(store: StoreModel, n: u32) -> bool {
    &&& store.page(n) matches Ok(p)
    &&& is_leaf(p.kind)
    &&& forall|i: int| 0 <= i < p.entries.len() ==> leaf_entry_ok(#[trigger] p.entries[i])
}

/// The page that a leaf names as the next one.
pub open spec fn next_of(store: StoreModel, n: u32) -> u32 {
    store.page(n).unwrap().next
}

/// The page that is reached from page `n` after `k` steps from a leaf to the
/// next.
pub open spec fn nth(store: StoreModel, n: u32, k: nat) -> u32
    decreases k,
{
    if k == 0 {
        n
    } else {
        next_of(store, nth(store, n, (k - 1) as nat))
    }
}

/// Whether the first `k` pages on the way from page `n` are sound leaves
/// that name a next page.
pub open spec fn runs(store: StoreModel, n: u32, k: nat) -> bool {
    forall|j: nat|
        j < k ==> leaf_ok(store, #[trigger] nth(store, n, j)) && next_of(store, nth(store, n, j))
            != 0
}

/// The records of a leaf from entry `slot` on.
pub open spec fn records_from(p: PageModel, slot: int) -> Seq<RawModel>
    decreases p.entries.len() - slot,
{
    if 0 <= slot < p.entries.len() {
        seq![leaf_record(p.entries[slot])] + records_from(p, slot + 1)
    } else {
        Seq::empty()
    }
}

/// A walk that stands inside a sound leaf gives the rest of the leaf's
/// records, and then what it gives from the end of the leaf.
proof fn lemma_trail_through_leaf(store: StoreModel, p: PageModel, slot: int, fuel: nat)
    requires
        0 <= slot <= p.entries.len(),
        forall|i: int| 0 <= i < p.entries.len() ==> leaf_entry_ok(#[trigger] p.entries[i]),
    ensures
        trail(store, p, slot, fuel) == (
            records_from(p, slot) + trail(store, p, p.entries.len() as int, fuel).0,
            trail(store, p, p.entries.len() as int, fuel).1,
        ),
    decreases p.entries.len() - slot,
{
    let end = trail(store, p, p.entries.len() as int, fuel);
    if slot < p.entries.len() {
        lemma_trail_through_leaf(store, p, slot + 1, fuel);
        assert(leaf_entry_ok(p.entries[slot]));
        assert(seq![leaf_record(p.entries[slot])] + (records_from(p, slot + 1) + end.0) =~= (
        seq![leaf_record(p.entries[slot])] + records_from(p, slot + 1)) + end.0);
    } else {
        assert(records_from(p, slot) + end.0 =~= end.0);
    }
}

/// The way from the next page is the way from this page, one step on.
proof fn lemma_nth_shift(store: StoreModel, n: u32, k: nat)
    ensures
        nth(store, next_of(store, n), k) == nth(store, n, k + 1),
    decreases k,
{
    if k > 0 {
        lemma_nth_shift(store, n, (k - 1) as nat);
        assert(nth(store, n, k + 1) == next_of(store, nth(store, n, k)));
    } else {
        assert(nth(store, n, 0) == n);
        assert(nth(store, n, 1) == next_of(store, nth(store, n, 0)));
    }
}

/// Where two places on the way are the same page, the way goes on in the
/// same manner from both.
proof fn lemma_nth_repeats(store: StoreModel, n: u32, i: nat, j: nat, m: nat)
    requires
        nth(store, n, i) == nth(store, n, j),
    ensures
        nth(store, n, i + m) == nth(store, n, j + m),
    decreases m,
{
    if m > 0 {
        lemma_nth_repeats(store, n, i, j, (m - 1) as nat);
        assert(nth(store, n, i + m) == next_of(store, nth(store, n, (i + m - 1) as nat)));
        assert(nth(store, n, j + m) == next_of(store, nth(store, n, (j + m - 1) as nat)));
    }
}

/// A way that comes back to a page it has been at goes on without end.
proof fn lemma_circle_runs_on(store: StoreModel, n: u32, i: nat, j: nat, k: nat)
    requires
        i < j,
        runs(store, n, j),
        nth(store, n, i) == nth(store, n, j),
    ensures
        leaf_ok(store, nth(store, n, k)),
        next_of(store, nth(store, n, k)) != 0,
    decreases k,
{
    if k >= j {
        let back = (k - (j - i)) as nat;
        lemma_circle_runs_on(store, n, i, j, back);
        lemma_nth_repeats(store, n, i, j, (k - j) as nat);
        assert(nth(store, n, back) == nth(store, n, k));
    }
}

/// A walk along leaves that go on without end runs out of pages.
proof fn lemma_endless_walk_fails(store: StoreModel, n: u32, fuel: nat)
    requires
        forall|k: nat|
            leaf_ok(store, #[trigger] nth(store, n, k)) && next_of(store, nth(store, n, k)) != 0,
    ensures
        trail(store, store.page(n).unwrap(), 0, fuel).1 == Some(Error::CorruptBTree),
    decreases fuel,
{
    let p = store.page(n).unwrap();
    assert(nth(store, n, 0) == n);
    assert(leaf_ok(store, n));
    lemma_trail_through_leaf(store, p, 0, fuel);
    if fuel > 0 {
        let m = p.next;
        assert(nth(store, n, 1) == m);
        assert(leaf_ok(store, m));
        assert forall|k: nat|
            leaf_ok(store, #[trigger] nth(store, m, k)) && next_of(store, nth(store, m, k))
                != 0 by {
            lemma_nth_shift(store, n, k);
            assert(leaf_ok(store, nth(store, n, k + 1)));
        }
        lemma_endless_walk_fails(store, m, (fuel - 1) as nat);
    }
}

/// The guard against circles: where the way from a leaf to the next comes
/// back to a page that it has been at, the walk along the leaves ends with
/// the fault of a corrupt tree, however many pages it may visit.
pub proof fn lemma_cycle_is_corrupt(store: StoreModel, n: u32, i: nat, j: nat, fuel: nat)
    requires
        i < j,
        runs(store, n, j),
        nth(store, n, i) == nth(store, n, j),
    ensures
        trail(store, store.page(n).unwrap(), 0, fuel).1 == Some(Error::CorruptBTree),
{
    assert forall|k: nat|
        leaf_ok(store, #[trigger] nth(store, n, k)) && next_of(store, nth(store, n, k)) != 0 by {
        lemma_circle_runs_on(store, n, i, j, k);
    }
    lemma_endless_walk_fails(store, n, fuel);
}

/// The pages that the entries of a root or branch page name, in their order.
pub open spec fn children_of(store: StoreModel, n: u32) -> Seq<u32> {
    match store.page(n) {
        Ok(p) => Seq::new(p.entries.len(), |i: int| branch_child(p.entries[i])),
        Err(_) => Seq::empty(),
    }
}

/// The children of the first `upto` of the pages, in their order.
pub open spec fn below(store: StoreModel, pages: Seq<u32>, upto: int) -> Seq<u32>
    decreases upto,
{
    if upto <= 0 {
        Seq::empty()
    } else {
        below(store, pages, upto - 1) + children_of(store, pages[upto - 1])
    }
}

/// The pages that lie `d` levels below the root, from the leftmost to the
/// rightmost.
pub open spec fn layer(store: StoreModel, root: u32, d: nat) -> Seq<u32>
    decreases d,
{
    if d == 0 {
        seq![root]
    } else {
        below(
            store,
            layer(store, root, (d - 1) as nat),
            layer(store, root, (d - 1) as nat).len() as int,
        )
    }
}

/// Whether page `n` is a root or branch page with at least one entry, of
/// which every entry is sound.
pub open spec fn inner_ok(store: StoreModel, n: u32) -> bool {
    &&& store.page(n) matches Ok(p)
    &&& !is_leaf(p.kind)
    &&& p.entries.len() > 0
    &&& forall|i: int| 0 <= i < p.entries.len() ==> branch_entry_ok(#[trigger] p.entries[i])
}

/// Whether the pages below `root` are a tree of `depth` levels: root and
/// branch pages down to the last level, and leaves at the last level.
pub open spec fn tree_ok(store: StoreModel, root: u32, depth: nat) -> bool {
    &&& forall|d: nat, k: int|
        d < depth && 0 <= k < layer(store, root, d).len() ==> inner_ok(
            store,
            #[trigger] layer(store, root, d)[k],
        )
    &&& forall|k: int|
        0 <= k < layer(store, root, depth).len() ==> leaf_ok(
            store,
            #[trigger] layer(store, root, depth)[k],
        )
}

/// Whether every leaf names the leaf that follows it, and the last one none.
pub open spec fn linked(store: StoreModel, leaves: Seq<u32>) -> bool {
    &&& forall|k: int|
        0 <= k < leaves.len() - 1 ==> #[trigger] next_of(store, leaves[k]) == leaves[k + 1]
    &&& leaves.len() > 0 ==> next_of(store, leaves.last()) == 0
}

/// The records of the leaves from leaf `from` on, leaf by leaf.
pub open spec fn records_of_leaves(store: StoreModel, leaves: Seq<u32>, from: int) -> Seq<
    RawModel,
>
    decreases leaves.len() - from,
{
    if 0 <= from < leaves.len() {
        records_from(store.page(leaves[from]).unwrap(), 0) + records_of_leaves(
            store,
            leaves,
            from + 1,
        )
    } else {
        Seq::empty()
    }
}

/// What descending from the root gives: the records of the leaves that lie
/// `depth` levels below the root, reached through every child in turn, from
/// the leftmost to the rightmost.
pub open spec fn records_by_descent(store: StoreModel, root: u32, depth: nat) -> Seq<RawModel> {
    records_of_leaves(store, layer(store, root, depth), 0)
}

/// The children of pages begin with the children of the first page.
proof fn lemma_below_first(store: StoreModel, pages: Seq<u32>, upto: int)
    requires
        1 <= upto <= pages.len(),
        children_of(store, pages[0]).len() > 0,
    ensures
        below(store, pages, upto).len() > 0,
        below(store, pages, upto)[0] == children_of(store, pages[0])[0],
    decreases upto,
{
    if upto > 1 {
        lemma_below_first(store, pages, upto - 1);
    } else {
        assert(below(store, pages, 0) =~= Seq::<u32>::empty());
        assert(below(store, pages, 1) =~= children_of(store, pages[0]));
    }
}

/// Every level of a tree has a first page, and the first page of a level is
/// the first child of the first page of the level above.
proof fn lemma_layer_first(store: StoreModel, root: u32, depth: nat, d: nat)
    requires
        tree_ok(store, root, depth),
        d <= depth,
    ensures
        layer(store, root, d).len() > 0,
        d > 0 ==> layer(store, root, d)[0] == children_of(
            store,
            layer(store, root, (d - 1) as nat)[0],
        )[0],
    decreases d,
{
    if d > 0 {
        let up = (d - 1) as nat;
        lemma_layer_first(store, root, depth, up);
        let above = layer(store, root, up);
        assert(inner_ok(store, above[0]));
        lemma_below_first(store, above, above.len() as int);
    }
}

/// The way down from the first page of a level ends at the first leaf.
proof fn lemma_descend_leftmost(store: StoreModel, root: u32, depth: nat, d: nat, fuel: nat)
    requires
        tree_ok(store, root, depth),
        d <= depth,
        fuel > depth - d,
    ensures
        layer(store, root, d).len() > 0,
        layer(store, root, depth).len() > 0,
        descend(store, layer(store, root, d)[0], None, fuel) == Ok::<PageModel, Error>(
            store.page(layer(store, root, depth)[0]).unwrap(),
        ),
    decreases depth - d,
{
    lemma_layer_first(store, root, depth, d);
    lemma_layer_first(store, root, depth, depth);
    let n = layer(store, root, d)[0];
    if d == depth {
        assert(leaf_ok(store, n));
    } else {
        assert(inner_ok(store, n));
        let p = store.page(n).unwrap();
        assert(pick(p.entries, None, 0) == 0);
        assert(branch_entry_ok(p.entries[0]));
        lemma_layer_first(store, root, depth, d + 1);
        assert(children_of(store, n)[0] == branch_child(p.entries[0]));
        lemma_descend_leftmost(store, root, depth, d + 1, (fuel - 1) as nat);
    }
}

/// The walk along leaves of which each names the next gives their records,
/// leaf by leaf, and ends without a fault.
proof fn lemma_chain_gives_leaves(store: StoreModel, leaves: Seq<u32>, k: int, fuel: nat)
    requires
        forall|i: int| 0 <= i < leaves.len() ==> leaf_ok(store, #[trigger] leaves[i]),
        linked(store, leaves),
        0 <= k < leaves.len(),
        fuel >= leaves.len() - 1 - k,
    ensures
        trail(store, store.page(leaves[k]).unwrap(), 0, fuel) == (
            records_of_leaves(store, leaves, k),
            None::<Error>,
        ),
    decreases leaves.len() - k,
{
    let p = store.page(leaves[k]).unwrap();
    assert(leaf_ok(store, leaves[k]));
    lemma_trail_through_leaf(store, p, 0, fuel);
    let end = trail(store, p, p.entries.len() as int, fuel);
    if k == leaves.len() - 1 {
        assert(next_of(store, leaves.last()) == 0);
        assert(end == (Seq::<RawModel>::empty(), None::<Error>));
        assert(records_of_leaves(store, leaves, k + 1) =~= Seq::<RawModel>::empty());
    } else {
        assert(next_of(store, leaves[k]) == leaves[k + 1]);
        assert(leaf_ok(store, leaves[k + 1]));
        lemma_chain_gives_leaves(store, leaves, k + 1, (fuel - 1) as nat);
    }
}

/// Pages that can be read and differ from each other are no more than the
/// store has pages.
proof fn lemma_different_pages_are_few(store: StoreModel, pages: Seq<u32>)
    requires
        pages.len() > 0,
        forall|i: int| 0 <= i < pages.len() ==> store.page(#[trigger] pages[i]) is Ok,
        forall|i: int, j: int|
            0 <= i < j < pages.len() ==> (#[trigger] pages[i]) != (#[trigger] pages[j]),
    ensures
        pages.len() <= store.page_count(),
{
    let numbers = Seq::new(pages.len(), |i: int| pages[i] as int);
    let all = set_int_range(1, store.page_count() + 1);
    assert(store.page(pages[0]) is Ok);
    lemma_int_range(1, store.page_count() + 1);
    assert forall|n: int| numbers.to_set().contains(n) implies all.contains(n) by {
        assert(numbers.contains(n));
        let i = choose|i: int| 0 <= i < numbers.len() && numbers[i] == n;
        assert(store.page(pages[i]) is Ok);
    }
    assert(numbers.to_set().subset_of(all));
    lemma_len_subset(numbers.to_set(), all);
    assert forall|i: int, j: int|
        0 <= i < numbers.len() && 0 <= j < numbers.len() && i != j implies numbers[i]
        != numbers[j] by {
        if i < j {
            assert(pages[i] != pages[j]);
        } else {
            assert(pages[j] != pages[i]);
        }
    }
    assert(numbers.no_duplicates());
    numbers.unique_seq_to_set();
}

/// Leaves of which each names the next go on in the same manner from two
/// places that are the same page.
proof fn lemma_linked_repeat(store: StoreModel, leaves: Seq<u32>, i: int, j: int, t: int)
    requires
        linked(store, leaves),
        0 <= i < j,
        0 <= t,
        j + t < leaves.len(),
        leaves[i] == leaves[j],
    ensures
        leaves[i + t] == leaves[j + t],
    decreases t,
{
    if t > 0 {
        lemma_linked_repeat(store, leaves, i, j, t - 1);
        assert(next_of(store, leaves[i + t - 1]) == leaves[i + t - 1 + 1]);
        assert(next_of(store, leaves[j + t - 1]) == leaves[j + t - 1 + 1]);
    }
}

/// Leaves of which each names the next, and the last one none, are
/// different pages.
proof fn lemma_linked_leaves_differ(store: StoreModel, leaves: Seq<u32>, i: int, j: int)
    requires
        forall|k: int| 0 <= k < leaves.len() ==> leaf_ok(store, #[trigger] leaves[k]),
        linked(store, leaves),
        0 <= i < j < leaves.len(),
    ensures
        leaves[i] != leaves[j],
{
    if leaves[i] == leaves[j] {
        let t = leaves.len() - 1 - j;
        lemma_linked_repeat(store, leaves, i, j, t);
        assert(leaves[i + t] == leaves.last());
        assert(next_of(store, leaves[i + t]) == leaves[i + t + 1]);
        assert(leaf_ok(store, leaves[i + t + 1]));
    }
}

/// The way down along the first pages of the levels goes on in the same
/// manner from two levels whose first pages are the same page.
proof fn lemma_first_pages_repeat(store: StoreModel, root: u32, depth: nat, a: nat, b: nat, t: nat)
    requires
        tree_ok(store, root, depth),
        a < b,
        b + t <= depth,
        layer(store, root, a).len() > 0,
        layer(store, root, b).len() > 0,
        layer(store, root, a)[0] == layer(store, root, b)[0],
    ensures
        layer(store, root, a + t).len() > 0,
        layer(store, root, b + t).len() > 0,
        layer(store, root, a + t)[0] == layer(store, root, b + t)[0],
    decreases t,
{
    if t > 0 {
        lemma_first_pages_repeat(store, root, depth, a, b, (t - 1) as nat);
        lemma_layer_first(store, root, depth, a + t);
        lemma_layer_first(store, root, depth, b + t);
    }
}

/// The first pages of the levels of a tree are different pages.
proof fn lemma_first_pages_differ(store: StoreModel, root: u32, depth: nat, a: nat, b: nat)
    requires
        tree_ok(store, root, depth),
        a < b <= depth,
    ensures
        layer(store, root, a).len() > 0,
        layer(store, root, b).len() > 0,
        layer(store, root, a)[0] != layer(store, root, b)[0],
{
    lemma_layer_first(store, root, depth, a);
    lemma_layer_first(store, root, depth, b);
    if layer(store, root, a)[0] == layer(store, root, b)[0] {
        let t = (depth - b) as nat;
        lemma_first_pages_repeat(store, root, depth, a, b, t);
        assert(inner_ok(store, layer(store, root, a + t)[0]));
        assert(leaf_ok(store, layer(store, root, depth)[0]));
    }
}

/// A tree of a store has fewer levels, and no more leaves, than the store has
/// pages.
pub proof fn lemma_tree_fits_store(store: StoreModel, root: u32, depth: nat)
    requires
        tree_ok(store, root, depth),
        linked(store, layer(store, root, depth)),
    ensures
        depth < store.page_count(),
        layer(store, root, depth).len() <= store.page_count(),
{
    let leaves = layer(store, root, depth);
    lemma_layer_first(store, root, depth, depth);
    assert forall|i: int, j: int| 0 <= i < j < leaves.len() implies (#[trigger] leaves[i]) != (
    #[trigger] leaves[j]) by {
        lemma_linked_leaves_differ(store, leaves, i, j);
    }
    assert forall|i: int| 0 <= i < leaves.len() implies store.page(#[trigger] leaves[i]) is Ok by {
        assert(leaf_ok(store, leaves[i]));
    }
    lemma_different_pages_are_few(store, leaves);
    let firsts = Seq::new((depth + 1) as nat, |d: int| layer(store, root, d as nat)[0]);
    assert forall|i: int| 0 <= i < firsts.len() implies store.page(#[trigger] firsts[i]) is Ok by {
        lemma_layer_first(store, root, depth, i as nat);
        if i < depth {
            assert(inner_ok(store, layer(store, root, i as nat)[0]));
        } else {
            assert(leaf_ok(store, layer(store, root, depth)[0]));
        }
    }
    assert forall|i: int, j: int| 0 <= i < j < firsts.len() implies (#[trigger] firsts[i]) != (
    #[trigger] firsts[j]) by {
        lemma_first_pages_differ(store, root, depth, i as nat, j as nat);
    }
    lemma_different_pages_are_few(store, firsts);
}

/// The walk along the leaves gives what descending from the root gives: in
/// a tree whose leaves each name the leaf that follows, a walk that goes
/// down to the leftmost leaf and then from each leaf to the next gives the
/// same records in the same order as descending from the root into every
/// child in turn, and ends without a fault.
pub proof fn lemma_chain_equals_descent(store: StoreModel, root: u32, depth: nat)
    requires
        tree_ok(store, root, depth),
        linked(store, layer(store, root, depth)),
    ensures
        scan_of(store, root) == (records_by_descent(store, root, depth), None::<Error>),
{
    lemma_tree_fits_store(store, root, depth);
    let fuel = store.page_count() as nat;
    lemma_descend_leftmost(store, root, depth, 0, fuel);
    assert(layer(store, root, 0)[0] == root);
    lemma_chain_gives_leaves(store, layer(store, root, depth), 0, fuel);
}

/// The greatest number of entries that a page of the store has room for.
pub open spec fn page_room(store: StoreModel) -> int {
    store.page_size / 4
}

/// No page of a store holds more entries than a page has room for.
proof fn lemma_page_entries_fit(store: StoreModel, n: u32)
    requires
        store.well_formed(),
        store.page(n) is Ok,
    ensures
        store.page(n).unwrap().entries.len() <= page_room(store),
{
    if n != 1 {
        let size = store.page_size;
        assert((n - 1) * size >= 0 && n * size <= store.bytes.len() && n * size - (n - 1) * size
            == size) by (nonlinear_arith)
            requires
                1 <= n <= store.bytes.len() as int / size,
                size > 0,
        ;
        let pg = store.page_bytes(n as int);
        assert(pg.len() == size);
        assert(page_ok(pg));
        assert(count_fits(pg));
    }
}

/// The leaf that a walk down reaches is a page of the store.
proof fn lemma_descend_gives_a_page(store: StoreModel, n: u32, key: Option<Seq<u8>>, fuel: nat)
    requires
        descend(store, n, key, fuel) is Ok,
    ensures
        exists|m: u32| store.page(m) == Ok::<PageModel, Error>(descend(store, n, key, fuel).unwrap()),
    decreases fuel,
{
    let p = store.page(n).unwrap();
    if is_leaf(p.kind) {
        assert(store.page(n) == Ok::<PageModel, Error>(descend(store, n, key, fuel).unwrap()));
    } else {
        lemma_descend_gives_a_page(
            store,
            branch_child(p.entries[pick(p.entries, key, 0)]),
            key,
            (fuel - 1) as nat,
        );
    }
}

/// A walk along the leaves gives no more records than the rest of its leaf
/// and the pages that it may still visit have room for.
proof fn lemma_trail_is_bounded(store: StoreModel, p: PageModel, slot: int, fuel: nat)
    requires
        store.well_formed(),
        0 <= slot <= p.entries.len(),
    ensures
        trail(store, p, slot, fuel).0.len() <= p.entries.len() - slot + fuel * page_room(store),
    decreases fuel, p.entries.len() - slot,
{
    let room = page_room(store);
    assert(fuel * room >= 0) by (nonlinear_arith)
        requires
            fuel >= 0,
            room >= 0,
    ;
    if slot < p.entries.len() {
        if leaf_entry_ok(p.entries[slot]) {
            lemma_trail_is_bounded(store, p, slot + 1, fuel);
        }
    } else if p.next != 0 && fuel > 0 {
        match store.page(p.next) {
            Ok(q) => {
                if is_leaf(q.kind) {
                    lemma_page_entries_fit(store, p.next);
                    lemma_trail_is_bounded(store, q, 0, (fuel - 1) as nat);
                    assert(room + (fuel - 1) * room == fuel * room) by (nonlinear_arith);
                }
            },
            Err(_) => {},
        }
    }
}

/// The number of pages that a walk along the leaves goes on to from entry
/// `slot` of the leaf `p`, where it may visit `fuel` more pages. A page that
/// cannot be read, or is no leaf, is the last one that the walk goes on to.
pub open spec fn leaves_read(store: StoreModel, p: PageModel, slot: int, fuel: nat) -> nat
    decreases fuel, p.entries.len() - slot,
{
    if 0 <= slot < p.entries.len() {
        if leaf_entry_ok(p.entries[slot]) {
            leaves_read(store, p, slot + 1, fuel)
        } else {
            0
        }
    } else if slot < 0 || p.next == 0 || fuel == 0 {
        0
    } else {
        match store.page(p.next) {
            Err(_) => 1,
            Ok(q) => if is_leaf(q.kind) {
                1 + leaves_read(store, q, 0, (fuel - 1) as nat)
            } else {
                1
            },
        }
    }
}

/// The number of pages that a walk from page `n` down reads, where it may
/// visit `fuel` pages.
pub open spec fn pages_descended(store: StoreModel, n: u32, key: Option<Seq<u8>>, fuel: nat) -> nat
    decreases fuel,
{
    if fuel == 0 {
        0
    } else {
        match store.page(n) {
            Err(_) => 1,
            Ok(p) => if is_leaf(p.kind) || p.entries.len() == 0 || !branch_entry_ok(
                p.entries[pick(p.entries, key, 0)],
            ) {
                1
            } else {
                1 + pages_descended(
                    store,
                    branch_child(p.entries[pick(p.entries, key, 0)]),
                    key,
                    (fuel - 1) as nat,
                )
            },
        }
    }
}

/// Neither way of a walk reads more pages than it may visit, whatever the
/// pages name as their children and as the pages that follow them: pages
/// that point at each other in a circle cannot keep a walk going.
pub proof fn lemma_pages_read_are_bounded(
    store: StoreModel,
    n: u32,
    key: Option<Seq<u8>>,
    p: PageModel,
    slot: int,
    fuel: nat,
)
    ensures
        pages_descended(store, n, key, fuel) <= fuel,
        leaves_read(store, p, slot, fuel) <= fuel,
{
    lemma_descent_is_bounded(store, n, key, fuel);
    lemma_leaves_read_are_bounded(store, p, slot, fuel);
}

proof fn lemma_descent_is_bounded(store: StoreModel, n: u32, key: Option<Seq<u8>>, fuel: nat)
    ensures
        pages_descended(store, n, key, fuel) <= fuel,
    decreases fuel,
{
    if fuel > 0 {
        match store.page(n) {
            Ok(p) => {
                if !(is_leaf(p.kind) || p.entries.len() == 0 || !branch_entry_ok(
                    p.entries[pick(p.entries, key, 0)],
                )) {
                    lemma_descent_is_bounded(
                        store,
                        branch_child(p.entries[pick(p.entries, key, 0)]),
                        key,
                        (fuel - 1) as nat,
                    );
                }
            },
            Err(_) => {},
        }
    }
}

proof fn lemma_leaves_read_are_bounded(store: StoreModel, p: PageModel, slot: int, fuel: nat)
    ensures
        leaves_read(store, p, slot, fuel) <= fuel,
    decreases fuel, p.entries.len() - slot,
{
    if 0 <= slot < p.entries.len() {
        if leaf_entry_ok(p.entries[slot]) {
            lemma_leaves_read_are_bounded(store, p, slot + 1, fuel);
        }
    } else if !(slot < 0 || p.next == 0 || fuel == 0) {
        match store.page(p.next) {
            Ok(q) => {
                if is_leaf(q.kind) {
                    lemma_leaves_read_are_bounded(store, q, 0, (fuel - 1) as nat);
                }
            },
            Err(_) => {},
        }
    }
}

/// No walk gives records without end: a walk over a tree gives no more
/// records than the leaf that it begins with, and as many pages as the store
/// has, have room for.
pub proof fn lemma_walk_is_bounded(store: StoreModel, root: u32)
    requires
        store.well_formed(),
    ensures
        scan_of(store, root).0.len() <= (store.page_count() + 1) * page_room(store),
{
    let pages = store.page_count();
    let room = page_room(store);
    assert(pages >= 0 && room >= 0);
    assert((pages + 1) * room == room + pages * room && pages * room >= 0) by (nonlinear_arith)
        requires
            pages >= 0,
            room >= 0,
    ;
    match descend(store, root, None, pages as nat) {
        Ok(leaf) => {
            lemma_descend_gives_a_page(store, root, None, pages as nat);
            let m = choose|m: u32| store.page(m) == Ok::<PageModel, Error>(leaf);
            lemma_page_entries_fit(store, m);
            lemma_trail_is_bounded(store, leaf, 0, pages as nat);
        },
        Err(_) => {},
    }
}

} // verus!
