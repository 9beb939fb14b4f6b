//! The order in which the entries of a directory are imported: ascending by
//! modification time, entries of equal time in listing order.

use crate::entry::{DirEntry, DirEntryView};
use vstd::prelude::*;
use vstd::relations::{sorted_by, total_ordering};
use vstd::seq_lib::{lemma_multiset_commutative, lemma_sorted_unique, to_multiset_build};

verus! {

/// Order on pairs of a modification time and a position in the listing:
/// by time, then by position.
pub open spec fn key_le(a: (int, int), b: (int, int)) -> bool {
    a.0 < b.0 || (a.0 == b.0 && a.1 <= b.1)
}

/// [`key_le`] as a relation.
pub open spec fn key_order() -> spec_fn((int, int), (int, int)) -> bool {
    |a: (int, int), b: (int, int)| key_le(a, b)
}

/// Each entry's modification time paired with its position in the listing.
pub open spec fn listing_keys(entries: Seq<DirEntryView>) -> Seq<(int, int)> {
    Seq::new(entries.len(), |i: int| (entries[i].modified, i))
}

/// The positions of a listing in import order.
pub open spec fn scan_positions(entries: Seq<DirEntryView>) -> Seq<int> {
    listing_keys(entries).sort_by(key_order()).map_values(|k: (int, int)| k.1)
}

/// The entries of a listing in import order.
pub open spec fn ordered_by_modified(entries: Seq<DirEntryView>) -> Seq<DirEntryView> {
    scan_positions(entries).map_values(|p: int| entries[p])
}

/// The paths to import from a listing: those of its regular files, in import order.
pub open spec fn import_paths(entries: Seq<DirEntryView>) -> Seq<Seq<char>> {
    ordered_by_modified(entries).filter(|e: DirEntryView| e.is_file).map_values(
        |e: DirEntryView| e.path,
    )
}

/// Whether `order` names each position of `entries` once, ascending by
/// modification time and, among entries of equal time, by position.
pub open spec fn is_scan_order(entries: Seq<DirEntryView>, order: Seq<int>) -> bool {
    &&& order.len() == entries.len()
    &&& forall|k: int| 0 <= k < order.len() ==> 0 <= #[trigger] order[k] < entries.len()
    &&& forall|p: int| 0 <= p < entries.len() ==> #[trigger] order.contains(p)
    &&& forall|a: int, b: int|
        0 <= a < b < order.len() ==> {
            ||| entries[#[trigger] order[a]].modified < entries[#[trigger] order[b]].modified
            ||| (entries[order[a]].modified == entries[order[b]].modified && order[a] < order[b])
        }
}

/// The order on keys is total.
proof fn lemma_key_order_total()
    ensures
        total_ordering(key_order()),
{
    let r = key_order();
    assert forall|x: (int, int), y: (int, int)| #[trigger] r(x, y) && #[trigger] r(y, x) implies x
        == y by {
        assert(x.0 == y.0 && x.1 == y.1);
    }
}

/// Sequences with the same elements, each as often, still have the same
/// elements after `f` is applied to each.
proof fn lemma_map_keeps_multiset<A, B>(x: Seq<A>, y: Seq<A>, f: spec_fn(A) -> B)
    requires
        x.to_multiset() == y.to_multiset(),
    ensures
        x.map_values(f).to_multiset() == y.map_values(f).to_multiset(),
    decreases x.len(),
{
    broadcast use vstd::seq_lib::group_to_multiset_ensures;
    broadcast use vstd::multiset::group_multiset_axioms;

    assert(x.len() == x.to_multiset().len() && y.len() == y.to_multiset().len());
    if x.len() == 0 {
        assert(x.map_values(f) =~= y.map_values(f));
    } else {
        let e = x.last();
        assert(x.to_multiset().count(e) > 0);
        assert(y.to_multiset().count(e) > 0);
        assert(y.contains(e));
        let j = choose|j: int| 0 <= j < y.len() && y[j] == e;
        let x1 = x.drop_last();
        let y1 = y.remove(j);
        assert(x =~= x1.push(e));
        assert(x1.to_multiset() =~= x.to_multiset().remove(e));
        assert(y1.to_multiset() =~= y.to_multiset().remove(e));
        lemma_map_keeps_multiset(x1, y1, f);
        assert(x.map_values(f) =~= x1.map_values(f).push(f(e)));
        assert(y.map_values(f) =~= y1.map_values(f).insert(j, f(e)));
        assert(x.map_values(f).to_multiset() =~= x1.map_values(f).to_multiset().insert(f(e)));
        assert(y.map_values(f).to_multiset() =~= y1.map_values(f).to_multiset().insert(f(e)));
    }
}

/// Import order goes by a scan order of the listing: it takes the entries
/// by ascending modification time, and those of equal time as listed.
pub proof fn law_scan_positions_in_order(entries: Seq<DirEntryView>)
    ensures
        is_scan_order(entries, scan_positions(entries)),
{
    broadcast use vstd::seq_lib::group_to_multiset_ensures;
    broadcast use vstd::multiset::group_multiset_axioms;

    let keys = listing_keys(entries);
    let sorted = keys.sort_by(key_order());
    let order = scan_positions(entries);
    lemma_key_order_total();
    keys.lemma_sort_by_ensures(key_order());
    assert(sorted.len() == sorted.to_multiset().len() && keys.len() == keys.to_multiset().len());
    assert forall|k: int| 0 <= k < sorted.len() implies 0 <= (#[trigger] sorted[k]).1
        < entries.len() && sorted[k].0 == entries[sorted[k].1].modified by {
        assert(sorted.to_multiset().count(sorted[k]) > 0);
        assert(keys.contains(sorted[k]));
        let i = choose|i: int| 0 <= i < keys.len() && keys[i] == sorted[k];
        assert(sorted[k] == (entries[i].modified, i));
    }
    assert forall|p: int| 0 <= p < entries.len() implies #[trigger] order.contains(p) by {
        assert(keys[p] == (entries[p].modified, p));
        assert(keys.to_multiset().count(keys[p]) > 0);
        assert(sorted.contains(keys[p]));
        let k = choose|k: int| 0 <= k < sorted.len() && sorted[k] == keys[p];
        assert(order[k] == p);
    }
    assert forall|a: int, b: int| 0 <= a < b < order.len() implies {
        ||| entries[#[trigger] order[a]].modified < entries[#[trigger] order[b]].modified
        ||| (entries[order[a]].modified == entries[order[b]].modified && order[a] < order[b])
    } by {
        assert(key_order()(sorted[a], sorted[b]));
        assert(key_le(sorted[a], sorted[b]));
        if sorted[a].1 == sorted[b].1 {
            assert(sorted[a] == sorted[b]);
            lemma_no_repeated_key(entries, a, b);
        }
    }
}

/// No key stands at two places among the sorted keys of a listing.
proof fn lemma_no_repeated_key(entries: Seq<DirEntryView>, a: int, b: int)
    requires
        0 <= a < b < listing_keys(entries).sort_by(key_order()).len(),
    ensures
        listing_keys(entries).sort_by(key_order())[a] != listing_keys(entries).sort_by(
            key_order(),
        )[b],
{
    let keys = listing_keys(entries);
    let sorted = keys.sort_by(key_order());
    lemma_key_order_total();
    keys.lemma_sort_by_ensures(key_order());
    assert(keys.no_duplicates());
    keys.lemma_multiset_has_no_duplicates();
    sorted.lemma_multiset_has_no_duplicates_conv();
}

/// A listing has one scan order only.
pub proof fn law_scan_order_unique(entries: Seq<DirEntryView>, order: Seq<int>)
    requires
        is_scan_order(entries, order),
    ensures
        order == scan_positions(entries),
{
    broadcast use vstd::seq_lib::group_to_multiset_ensures;
    broadcast use vstd::multiset::group_multiset_axioms;

    let n = entries.len() as int;
    let keys = listing_keys(entries);
    let sorted = keys.sort_by(key_order());
    let listed = Seq::new(entries.len(), |i: int| i);
    let key_at = |p: int| (entries[p].modified, p);
    let position = |k: (int, int)| k.1;
    assert(order.no_duplicates()) by {
        assert forall|a: int, b: int| 0 <= a < order.len() && 0 <= b < order.len() && a
            != b implies order[a] != order[b] by {
            if a < b {
                assert(entries[order[a]].modified < entries[order[b]].modified || order[a]
                    < order[b]);
            } else {
                assert(entries[order[b]].modified < entries[order[a]].modified || order[b]
                    < order[a]);
            }
        }
    }
    assert(listed.no_duplicates());
    order.lemma_multiset_has_no_duplicates();
    listed.lemma_multiset_has_no_duplicates();
    assert(order.to_multiset() =~= listed.to_multiset()) by {
        assert forall|p: int| order.to_multiset().count(p) == listed.to_multiset().count(p) by {
            if 0 <= p < n {
                assert(order.contains(p));
                assert(listed[p] == p);
                assert(listed.contains(p));
            } else {
                assert(!order.contains(p));
                assert(!listed.contains(p));
            }
        }
    }
    lemma_map_keeps_multiset(order, listed, key_at);
    assert(listed.map_values(key_at) =~= keys);
    let found = order.map_values(key_at);
    assert(sorted_by(found, key_order())) by {
        assert forall|a: int, b: int| 0 <= a < b < found.len() implies key_order()(
            #[trigger] found[a],
            #[trigger] found[b],
        ) by {
            assert(entries[order[a]].modified < entries[order[b]].modified || (
            entries[order[a]].modified == entries[order[b]].modified && order[a] < order[b]));
        }
    }
    lemma_key_order_total();
    keys.lemma_sort_by_ensures(key_order());
    lemma_sorted_unique(found, sorted, key_order());
    assert(order =~= found.map_values(position));
}

/// Import order only rearranges a listing: it holds the same entries, each
/// as often.
pub proof fn law_order_rearranges(entries: Seq<DirEntryView>)
    ensures
        ordered_by_modified(entries).to_multiset() == entries.to_multiset(),
        ordered_by_modified(entries).len() == entries.len(),
{
    broadcast use vstd::seq_lib::group_to_multiset_ensures;

    let keys = listing_keys(entries);
    let sorted = keys.sort_by(key_order());
    let position = |k: (int, int)| k.1;
    let entry = |p: int| entries[p];
    lemma_key_order_total();
    keys.lemma_sort_by_ensures(key_order());
    lemma_map_keeps_multiset(sorted, keys, position);
    lemma_map_keeps_multiset(sorted.map_values(position), keys.map_values(position), entry);
    assert(keys.map_values(position).map_values(entry) =~= entries);
    assert(sorted.map_values(position).map_values(entry) == ordered_by_modified(entries));
    assert(entries.len() == entries.to_multiset().len());
    assert(ordered_by_modified(entries).len() == ordered_by_modified(entries).to_multiset().len());
}

/// Import order is ascending by modification time.
pub proof fn law_order_ascending(entries: Seq<DirEntryView>, a: int, b: int)
    requires
        0 <= a <= b < entries.len(),
    ensures
        ordered_by_modified(entries)[a].modified <= ordered_by_modified(entries)[b].modified,
{
    law_scan_positions_in_order(entries);
    let order = scan_positions(entries);
    if a < b {
        assert(entries[order[a]].modified <= entries[order[b]].modified);
    }
}

/// Whether no two entries of a listing have the same modification time.
pub open spec fn distinct_times(entries: Seq<DirEntryView>) -> bool {
    forall|i: int, j: int|
        0 <= i < j < entries.len() ==> (#[trigger] entries[i]).modified != (
        #[trigger] entries[j]).modified
}

/// Whether a sequence of entries is ascending by modification time.
pub open spec fn ascending(entries: Seq<DirEntryView>) -> bool {
    forall|i: int, j: int|
        0 <= i < j < entries.len() ==> (#[trigger] entries[i]).modified <= (
        #[trigger] entries[j]).modified
}

/// Two ascending arrangements of the same entries are the same, where no
/// two of the entries share a modification time.
proof fn lemma_ascending_unique(x: Seq<DirEntryView>, y: Seq<DirEntryView>)
    requires
        x.to_multiset() == y.to_multiset(),
        ascending(x),
        ascending(y),
        distinct_times(x),
    ensures
        x == y,
    decreases x.len(),
{
    broadcast use vstd::seq_lib::group_to_multiset_ensures;
    broadcast use vstd::multiset::group_multiset_axioms;

    assert(x.len() == x.to_multiset().len() && y.len() == y.to_multiset().len());
    if x.len() == 0 {
        assert(x =~= y);
    } else {
        assert(x.to_multiset().count(x[0]) > 0);
        assert(y.to_multiset().count(y[0]) > 0);
        assert(y.contains(x[0]));
        assert(x.contains(y[0]));
        let k = choose|k: int| 0 <= k < y.len() && y[k] == x[0];
        let m = choose|m: int| 0 <= m < x.len() && x[m] == y[0];
        assert(x[0].modified <= x[m].modified);
        assert(y[0].modified <= y[k].modified);
        assert(m == 0);
        let xs = x.drop_first();
        let ys = y.drop_first();
        assert(xs =~= x.remove(0) && ys =~= y.remove(0));
        assert(xs.to_multiset() =~= x.to_multiset().remove(x[0]));
        assert(ys.to_multiset() =~= y.to_multiset().remove(y[0]));
        assert(ascending(xs)) by {
            assert forall|i: int, j: int| 0 <= i < j < xs.len() implies (#[trigger] xs[i]).modified
                <= (#[trigger] xs[j]).modified by {
                assert(xs[i] == x[i + 1] && xs[j] == x[j + 1]);
            }
        }
        assert(ascending(ys)) by {
            assert forall|i: int, j: int| 0 <= i < j < ys.len() implies (#[trigger] ys[i]).modified
                <= (#[trigger] ys[j]).modified by {
                assert(ys[i] == y[i + 1] && ys[j] == y[j + 1]);
            }
        }
        assert(distinct_times(xs)) by {
            assert forall|i: int, j: int| 0 <= i < j < xs.len() implies (#[trigger] xs[i]).modified
                != (#[trigger] xs[j]).modified by {
                assert(xs[i] == x[i + 1] && xs[j] == x[j + 1]);
            }
        }
        lemma_ascending_unique(xs, ys);
        assert(x =~= seq![x[0]] + xs);
        assert(y =~= seq![y[0]] + ys);
    }
}

/// Where no two entries of a directory share a modification time, the
/// order in which the directory lists them makes no difference: any two
/// listings of the same entries are imported in the same order.
pub proof fn law_listing_order_is_irrelevant(first: Seq<DirEntryView>, second: Seq<DirEntryView>)
    requires
        first.to_multiset() == second.to_multiset(),
        distinct_times(first),
    ensures
        ordered_by_modified(first) == ordered_by_modified(second),
        import_paths(first) == import_paths(second),
{
    broadcast use vstd::seq_lib::group_to_multiset_ensures;

    let x = ordered_by_modified(first);
    let y = ordered_by_modified(second);
    law_order_rearranges(first);
    law_order_rearranges(second);
    assert(ascending(x)) by {
        assert forall|i: int, j: int| 0 <= i < j < x.len() implies (#[trigger] x[i]).modified <= (
        #[trigger] x[j]).modified by {
            law_order_ascending(first, i, j);
        }
    }
    assert(ascending(y)) by {
        assert forall|i: int, j: int| 0 <= i < j < y.len() implies (#[trigger] y[i]).modified <= (
        #[trigger] y[j]).modified by {
            law_order_ascending(second, i, j);
        }
    }
    assert(distinct_times(x)) by {
        law_scan_positions_in_order(first);
        let order = scan_positions(first);
        assert forall|i: int, j: int| 0 <= i < j < x.len() implies (#[trigger] x[i]).modified != (
        #[trigger] x[j]).modified by {
            assert(x[i] == first[order[i]] && x[j] == first[order[j]]);
            if order[i] < order[j] {
                assert(first[order[i]].modified != first[order[j]].modified);
            } else {
                assert(first[order[j]].modified != first[order[i]].modified);
            }
        }
    }
    lemma_ascending_unique(x, y);
}

/// Only regular files are imported from a listing, and each of them is: a
/// path is imported from it just when it is the path of one of its
/// regular files.
pub proof fn law_files_only(entries: Seq<DirEntryView>, path: Seq<char>)
    ensures
        import_paths(entries).contains(path) <==> exists|i: int|
            0 <= i < entries.len() && (#[trigger] entries[i]).is_file && entries[i].path == path,
{
    broadcast use vstd::seq_lib::group_to_multiset_ensures;

    let ordered = ordered_by_modified(entries);
    let is_file = |e: DirEntryView| e.is_file;
    let path_of = |e: DirEntryView| e.path;
    let files = ordered.filter(is_file);
    law_order_rearranges(entries);
    if import_paths(entries).contains(path) {
        let k = choose|k: int| 0 <= k < files.len() && files.map_values(path_of)[k] == path;
        assert(files.contains(files[k]));
        ordered.lemma_filter_pred(is_file, k);
        ordered.lemma_filter_contains_rev(is_file, files[k]);
        assert(ordered.to_multiset().count(files[k]) > 0);
        assert(entries.contains(files[k]));
        let i = choose|i: int| 0 <= i < entries.len() && entries[i] == files[k];
        assert(entries[i].is_file && entries[i].path == path);
    }
    if exists|i: int| 0 <= i < entries.len() && (#[trigger] entries[i]).is_file && entries[i].path
        == path {
        let i = choose|i: int|
            0 <= i < entries.len() && (#[trigger] entries[i]).is_file && entries[i].path == path;
        assert(entries.contains(entries[i]));
        assert(entries.to_multiset().count(entries[i]) > 0);
        assert(ordered.contains(entries[i]));
        let m = choose|m: int| 0 <= m < ordered.len() && ordered[m] == entries[i];
        ordered.lemma_filter_contains(is_file, m);
        let k = choose|k: int| 0 <= k < files.len() && files[k] == entries[i];
        assert(files.map_values(path_of)[k] == path);
    }
}

/// A key as the sort holds it, read as a pair of integers.
pub open spec fn key_of(k: (i128, usize)) -> (int, int) {
    (k.0 as int, k.1 as int)
}

/// [`key_le`] on keys as the sort holds them.
pub open spec fn slot_order() -> spec_fn((i128, usize), (i128, usize)) -> bool {
    |a: (i128, usize), b: (i128, usize)| key_le(key_of(a), key_of(b))
}

fn slot_le(a: (i128, usize), b: (i128, usize)) -> (le: bool)
    ensures
        le == key_le(key_of(a), key_of(b)),
{
    a.0 < b.0 || (a.0 == b.0 && a.1 <= b.1)
}

/// Merges two sorted runs of keys into one.
fn merge(left: &Vec<(i128, usize)>, right: &Vec<(i128, usize)>) -> (merged: Vec<(i128, usize)>)
    requires
        sorted_by(left@, slot_order()),
        sorted_by(right@, slot_order()),
    ensures
        sorted_by(merged@, slot_order()),
        merged@.to_multiset() == left@.to_multiset().add(right@.to_multiset()),
{
    broadcast use vstd::seq_lib::group_to_multiset_ensures;
    broadcast use vstd::multiset::group_multiset_axioms;

    let mut merged: Vec<(i128, usize)> = Vec::new();
    let mut i: usize = 0;
    let mut j: usize = 0;
    assert(left@.take(0) =~= Seq::empty() && right@.take(0) =~= Seq::empty());
    while i < left.len() || j < right.len()
        invariant
            i <= left.len(),
            j <= right.len(),
            sorted_by(left@, slot_order()),
            sorted_by(right@, slot_order()),
            sorted_by(merged@, slot_order()),
            merged@.to_multiset() == left@.take(i as int).to_multiset().add(
                right@.take(j as int).to_multiset(),
            ),
            forall|k: int|
                0 <= k < merged.len() && i < left.len() ==> slot_order()(
                    #[trigger] merged@[k],
                    left@[i as int],
                ),
            forall|k: int|
                0 <= k < merged.len() && j < right.len() ==> slot_order()(
                    #[trigger] merged@[k],
                    right@[j as int],
                ),
        decreases left.len() - i + right.len() - j,
    {
        let from_left = if i == left.len() {
            false
        } else if j == right.len() {
            true
        } else {
            slot_le(left[i], right[j])
        };
        let ghost before = merged@;
        if from_left {
            let key = left[i];
            assert(left@.take(i + 1) =~= left@.take(i as int).push(key));
            assert(j < right.len() ==> slot_order()(key, right@[j as int]));
            assert(i + 1 < left.len() ==> slot_order()(key, left@[i + 1]));
            merged.push(key);
            i += 1;
            assert(merged@.to_multiset() =~= left@.take(i as int).to_multiset().add(
                right@.take(j as int).to_multiset(),
            )) by {
                let taken = left@.take(i - 1);
                assert(merged@ == before.push(key));
                to_multiset_build(before, key);
                to_multiset_build(taken, key);
            }
        } else {
            let key = right[j];
            assert(right@.take(j + 1) =~= right@.take(j as int).push(key));
            assert(i < left.len() ==> slot_order()(key, left@[i as int]));
            assert(j + 1 < right.len() ==> slot_order()(key, right@[j + 1]));
            merged.push(key);
            j += 1;
            assert(merged@.to_multiset() =~= left@.take(i as int).to_multiset().add(
                right@.take(j as int).to_multiset(),
            )) by {
                let taken = right@.take(j - 1);
                assert(merged@ == before.push(key));
                to_multiset_build(before, key);
                to_multiset_build(taken, key);
            }
        }
        assert forall|a: int, b: int| 0 <= a < b < merged.len() implies slot_order()(
            #[trigger] merged@[a],
            #[trigger] merged@[b],
        ) by {
            if b < before.len() {
                assert(slot_order()(before[a], before[b]));
            }
        }
    }
    assert(left@.take(i as int) =~= left@ && right@.take(j as int) =~= right@);
    merged
}

/// Sorts keys by time, then position.
fn sort_keys(keys: Vec<(i128, usize)>) -> (sorted: Vec<(i128, usize)>)
    ensures
        sorted_by(sorted@, slot_order()),
        sorted@.to_multiset() == keys@.to_multiset(),
    decreases keys.len(),
{
    let n = keys.len();
    if n <= 1 {
        return keys;
    }
    let half = n / 2;
    let mut left: Vec<(i128, usize)> = Vec::new();
    let mut right: Vec<(i128, usize)> = Vec::new();
    let mut i: usize = 0;
    while i < n
        invariant
            n == keys.len(),
            half == n / 2,
            i <= n,
            left@ =~= keys@.take(if i < half { i as int } else { half as int }),
            right@ =~= keys@.subrange(half as int, if i < half { half as int } else { i as int }),
        decreases n - i,
    {
        if i < half {
            left.push(keys[i]);
        } else {
            right.push(keys[i]);
        }
        i += 1;
    }
    proof {
        assert(keys@ =~= left@ + right@);
        lemma_multiset_commutative(left@, right@);
    }
    let left_sorted = sort_keys(left);
    let right_sorted = sort_keys(right);
    merge(&left_sorted, &right_sorted)
}

/// Whether `order` holds the positions of `listed` in import order.
spec fn holds_scan_positions(order: Seq<usize>, listed: Seq<DirEntryView>) -> bool {
    &&& order.len() == listed.len()
    &&& order.len() == scan_positions(listed).len()
    &&& forall|m: int|
        0 <= m < order.len() ==> (#[trigger] order[m]) as int == scan_positions(listed)[m]
            && order[m] < listed.len()
}

/// The positions of a listing in import order.
fn scan_order(entries: &Vec<DirEntry>) -> (order: Vec<usize>)
    ensures
        holds_scan_positions(order@, entries.deep_view()),
{
    let n = entries.len();
    let ghost listed = entries.deep_view();
    let mut keys: Vec<(i128, usize)> = Vec::new();
    let mut i: usize = 0;
    while i < n
        invariant
            n == entries.len(),
            listed == entries.deep_view(),
            i <= n,
            keys@.len() == i,
            forall|k: int| 0 <= k < i ==> key_of(#[trigger] keys@[k]) == (listed[k].modified, k),
        decreases n - i,
    {
        keys.push((entries[i].modified, i));
        i += 1;
    }
    let sorted = sort_keys(keys);
    proof {
        let f = |k: (i128, usize)| key_of(k);
        assert(keys@.map_values(f) =~= listing_keys(listed));
        lemma_map_keeps_multiset(sorted@, keys@, f);
        lemma_key_order_total();
        listing_keys(listed).lemma_sort_by_ensures(key_order());
        assert(sorted_by(sorted@.map_values(f), key_order())) by {
            assert forall|a: int, b: int| 0 <= a < b < sorted@.len() implies key_order()(
                #[trigger] sorted@.map_values(f)[a],
                #[trigger] sorted@.map_values(f)[b],
            ) by {
                assert(slot_order()(sorted@[a], sorted@[b]));
            }
        }
        lemma_sorted_unique(
            sorted@.map_values(f),
            listing_keys(listed).sort_by(key_order()),
            key_order(),
        );
        law_scan_positions_in_order(listed);
        assert(sorted@.len() == n);
        assert forall|k: int| 0 <= k < n implies (#[trigger] sorted@[k]).1 as int
            == scan_positions(listed)[k] by {
            assert(sorted@.map_values(f)[k] == key_of(sorted@[k]));
        }
    }
    let mut order: Vec<usize> = Vec::new();
    let mut k: usize = 0;
    while k < n
        invariant
            n == entries.len(),
            n == sorted@.len(),
            listed == entries.deep_view(),
            is_scan_order(listed, scan_positions(listed)),
            forall|m: int|
                0 <= m < n ==> (#[trigger] sorted@[m]).1 as int == scan_positions(listed)[m],
            k <= n,
            order@.len() == k,
            forall|m: int|
                0 <= m < k ==> (#[trigger] order@[m]) as int == scan_positions(listed)[m]
                    && order@[m] < n,
        decreases n - k,
    {
        assert(0 <= scan_positions(listed)[k as int] < n);
        order.push(sorted[k].1);
        k += 1;
    }
    order
}

/// Puts the entries of a listing into import order: ascending by modification
/// time, entries of equal time in the order in which they were listed.
pub fn order_by_modified(entries: &Vec<DirEntry>) -> (ordered: Vec<DirEntry>)
    ensures
        ordered.deep_view() == ordered_by_modified(entries.deep_view()),
{
    let order = scan_order(entries);
    let ghost listed = entries.deep_view();
    let mut ordered: Vec<DirEntry> = Vec::new();
    let mut k: usize = 0;
    while k < order.len()
        invariant
            listed == entries.deep_view(),
            holds_scan_positions(order@, listed),
            k <= order.len(),
            ordered@.len() == k,
            forall|m: int|
                0 <= m < k ==> (#[trigger] ordered@[m])@ == listed[scan_positions(listed)[m]],
        decreases order.len() - k,
    {
        ordered.push(entries[order[k]].clone());
        k += 1;
    }
    assert(ordered.deep_view() =~= ordered_by_modified(listed));
    ordered
}

/// The paths to import from a listing, in import order: regular files only.
pub fn import_order(entries: &Vec<DirEntry>) -> (paths: Vec<String>)
    ensures
        paths.deep_view() == import_paths(entries.deep_view()),
{
    let order = scan_order(entries);
    let ghost listed = entries.deep_view();
    let ghost all = ordered_by_modified(listed);
    let ghost is_file = |e: DirEntryView| e.is_file;
    let ghost path_of = |e: DirEntryView| e.path;
    let mut paths: Vec<String> = Vec::new();
    let mut k: usize = 0;
    assert(all.take(0) =~= Seq::empty());
    while k < order.len()
        invariant
            listed == entries.deep_view(),
            all == ordered_by_modified(listed),
            holds_scan_positions(order@, listed),
            is_file == |e: DirEntryView| e.is_file,
            path_of == |e: DirEntryView| e.path,
            k <= order.len(),
            paths.deep_view() == all.take(k as int).filter(is_file).map_values(path_of),
        decreases order.len() - k,
    {
        let entry = &entries[order[k]];
        let ghost before = paths.deep_view();
        proof {
            assert(all[k as int] == entry@);
            assert(all.take(k + 1) =~= all.take(k as int).push(all[k as int]));
            all.take(k as int).lemma_filter_push(all[k as int], is_file);
        }
        if entry.is_file {
            paths.push(entry.path.clone());
            assert(paths.deep_view() =~= before.push(all[k as int].path));
        }
        k += 1;
    }
    assert(all.take(k as int) =~= all);
    paths
}

} // verus!
