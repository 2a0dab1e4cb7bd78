//! Regions in ascending order of their first address.

use crate::region::RegionView;
use vstd::prelude::*;

verus! {

/// Where a region that starts at `key` goes into `regions`: behind the last
/// region that starts at or before `key`.
pub open spec fn insert_point(regions: Seq<RegionView>, key: u64) -> int
    decreases regions.len(),
{
    if regions.len() == 0 {
        0
    } else if regions.last().start <= key {
        regions.len() as int
    } else {
        insert_point(regions.drop_last(), key)
    }
}

/// `regions` in ascending order of `start`; regions that start at the same
/// address keep their order.
pub open spec fn sort_by_start(regions: Seq<RegionView>) -> Seq<RegionView>
    decreases regions.len(),
{
    if regions.len() == 0 {
        regions
    } else {
        let sorted = sort_by_start(regions.drop_last());
        sorted.insert(insert_point(sorted, regions.last().start), regions.last())
    }
}

/// No region starts before the one in front of it.
pub open spec fn sorted_by_start(regions: Seq<RegionView>) -> bool {
    forall|i: int, j: int| 0 <= i <= j < regions.len() ==> regions[i].start <= regions[j].start
}

/// The regions from the insertion point on start behind `key`, and the one
/// in front of it does not.
pub proof fn lemma_insert_point(regions: Seq<RegionView>, key: u64)
    ensures
        0 <= insert_point(regions, key) <= regions.len(),
        forall|i: int|
            insert_point(regions, key) <= i < regions.len() ==> (#[trigger] regions[i]).start
                > key,
        insert_point(regions, key) > 0 ==> regions[insert_point(regions, key) - 1].start <= key,
    decreases regions.len(),
{
    if regions.len() > 0 && regions.last().start > key {
        let init = regions.drop_last();
        lemma_insert_point(init, key);
        assert forall|i: int| insert_point(regions, key) <= i < regions.len() implies (
        #[trigger] regions[i]).start > key by {
            if i < init.len() {
                assert(init[i] == regions[i]);
            }
        }
    }
}

/// Putting a region at its insertion point keeps the order.
pub proof fn lemma_insert_keeps_order(regions: Seq<RegionView>, region: RegionView)
    requires
        sorted_by_start(regions),
    ensures
        sorted_by_start(regions.insert(insert_point(regions, region.start), region)),
{
    lemma_insert_point(regions, region.start);
    let p = insert_point(regions, region.start);
    let out = regions.insert(p, region);
    assert forall|i: int, j: int| 0 <= i <= j < out.len() implies out[i].start
        <= out[j].start by {
        if i < p && j > p {
            assert(regions[i].start <= regions[p - 1].start);
        }
    }
}

/// Sorting yields a sequence in ascending order of `start` that holds the
/// same regions, each as often as before.
pub proof fn lemma_sort_by_start(regions: Seq<RegionView>)
    ensures
        sorted_by_start(sort_by_start(regions)),
        sort_by_start(regions).to_multiset() == regions.to_multiset(),
        sort_by_start(regions).len() == regions.len(),
    decreases regions.len(),
{
    broadcast use vstd::seq_lib::group_to_multiset_ensures;

    if regions.len() > 0 {
        let init = regions.drop_last();
        let sorted = sort_by_start(init);
        lemma_sort_by_start(init);
        lemma_insert_point(sorted, regions.last().start);
        lemma_insert_keeps_order(sorted, regions.last());
        let p = insert_point(sorted, regions.last().start);
        assert(regions == init.push(regions.last()));
        vstd::seq_lib::to_multiset_insert(sorted, p, regions.last());
    }
}

/// No two of the regions start at the same address.
pub open spec fn distinct_starts(regions: Seq<RegionView>) -> bool {
    forall|i: int, j: int|
        0 <= i < j < regions.len() ==> (#[trigger] regions[i]).start != (
        #[trigger] regions[j]).start
}

/// Regions that start at different addresses do so in any order.
proof fn lemma_distinct_permutes(a: Seq<RegionView>, b: Seq<RegionView>)
    requires
        a.to_multiset() == b.to_multiset(),
        distinct_starts(a),
    ensures
        distinct_starts(b),
    decreases b.len(),
{
    broadcast use vstd::seq_lib::group_to_multiset_ensures;

    vstd::seq_lib::to_multiset_len(a);
    vstd::seq_lib::to_multiset_len(b);
    if b.len() > 0 {
        let n = b.len() as int;
        let last = b[n - 1];
        assert(a.to_multiset().count(last) > 0);
        assert(a.contains(last));
        let k = choose|k: int| 0 <= k < n && a[k] == last;
        let others = a.remove(k);
        let front = b.drop_last();
        assert(b.remove(n - 1) == front);
        assert(others.to_multiset() == front.to_multiset());
        assert forall|x: int, y: int| 0 <= x < y < others.len() implies (
        #[trigger] others[x]).start != (#[trigger] others[y]).start by {
            let x0 = if x < k {
                x
            } else {
                x + 1
            };
            let y0 = if y < k {
                y
            } else {
                y + 1
            };
            assert(others[x] == a[x0] && others[y] == a[y0]);
        }
        lemma_distinct_permutes(others, front);
        assert forall|i: int, j: int| 0 <= i < j < n implies (#[trigger] b[i]).start != (
        #[trigger] b[j]).start by {
            if j < n - 1 {
                assert(front[i] == b[i] && front[j] == b[j]);
            } else {
                assert(front[i] == b[i]);
                assert(front.to_multiset().count(front[i]) > 0);
                assert(others.contains(front[i]));
                let m = choose|m: int| 0 <= m < others.len() && others[m] == front[i];
                let m0 = if m < k {
                    m
                } else {
                    m + 1
                };
                assert(others[m] == a[m0]);
                if m0 < k {
                    assert(a[m0].start != a[k].start);
                } else {
                    assert(a[k].start != a[m0].start);
                }
            }
        }
    }
}

/// Sorting keeps regions apart that start at different addresses.
proof fn lemma_sort_keeps_distinct(regions: Seq<RegionView>)
    requires
        distinct_starts(regions),
    ensures
        distinct_starts(sort_by_start(regions)),
    decreases regions.len(),
{
    broadcast use vstd::seq_lib::group_to_multiset_ensures;

    if regions.len() > 0 {
        let init = regions.drop_last();
        let last = regions.last();
        assert forall|i: int, j: int| 0 <= i < j < init.len() implies (#[trigger] init[i]).start
            != (#[trigger] init[j]).start by {
            assert(init[i] == regions[i] && init[j] == regions[j]);
        }
        lemma_sort_keeps_distinct(init);
        lemma_sort_by_start(init);
        let sorted = sort_by_start(init);
        lemma_insert_point(sorted, last.start);
        let p = insert_point(sorted, last.start);
        let out = sorted.insert(p, last);
        assert forall|k: int| 0 <= k < sorted.len() implies (#[trigger] sorted[k]).start
            != last.start by {
            assert(sorted.to_multiset().count(sorted[k]) > 0);
            assert(init.contains(sorted[k]));
            let at = choose|at: int| 0 <= at < init.len() && init[at] == sorted[k];
            assert(regions[at] == init[at]);
            assert(regions[regions.len() - 1] == last);
        }
        assert forall|i: int, j: int| 0 <= i < j < out.len() implies (#[trigger] out[i]).start
            != (#[trigger] out[j]).start by {
            let a = if i < p {
                i
            } else {
                i - 1
            };
            let b = if j < p {
                j
            } else {
                j - 1
            };
            if i != p && j != p {
                assert(out[i] == sorted[a] && out[j] == sorted[b]);
            } else if i == p {
                assert(out[j] == sorted[b]);
            } else {
                assert(out[i] == sorted[a]);
            }
        }
    }
}

/// Two sequences in ascending order that hold the same regions, no two of
/// which start at the same address, are the same sequence.
proof fn lemma_order_is_unique(a: Seq<RegionView>, b: Seq<RegionView>)
    requires
        sorted_by_start(a),
        sorted_by_start(b),
        distinct_starts(a),
        distinct_starts(b),
        a.to_multiset() == b.to_multiset(),
    ensures
        a == b,
    decreases a.len(),
{
    broadcast use vstd::seq_lib::group_to_multiset_ensures;

    vstd::seq_lib::to_multiset_len(a);
    vstd::seq_lib::to_multiset_len(b);
    if a.len() > 0 {
        let n = a.len() as int;
        assert(a.to_multiset().count(b[n - 1]) > 0);
        assert(a.contains(b[n - 1]));
        let i = choose|i: int| 0 <= i < n && a[i] == b[n - 1];
        assert(b.to_multiset().count(a[n - 1]) > 0);
        assert(b.contains(a[n - 1]));
        let j = choose|j: int| 0 <= j < n && b[j] == a[n - 1];
        assert(b[j].start <= b[n - 1].start);
        assert(a[i].start <= a[n - 1].start);
        assert(i == n - 1);
        assert(a.remove(n - 1) == a.drop_last());
        assert(b.remove(n - 1) == b.drop_last());
        let front = a.drop_last();
        let other = b.drop_last();
        assert(front.to_multiset() == other.to_multiset());
        assert forall|x: int, y: int| 0 <= x <= y < front.len() implies front[x].start
            <= front[y].start by {
            assert(front[x] == a[x] && front[y] == a[y]);
        }
        assert forall|x: int, y: int| 0 <= x <= y < other.len() implies other[x].start
            <= other[y].start by {
            assert(other[x] == b[x] && other[y] == b[y]);
        }
        assert forall|x: int, y: int| 0 <= x < y < front.len() implies (#[trigger] front[x]).start
            != (#[trigger] front[y]).start by {
            assert(front[x] == a[x] && front[y] == a[y]);
        }
        assert forall|x: int, y: int| 0 <= x < y < other.len() implies (#[trigger] other[x]).start
            != (#[trigger] other[y]).start by {
            assert(other[x] == b[x] && other[y] == b[y]);
        }
        lemma_order_is_unique(front, other);
        assert(a == front.push(a[n - 1]));
        assert(b == other.push(b[n - 1]));
    }
}

/// The order in which regions are handed to the sort does not matter, where
/// no two of them start at the same address: two sequences that hold the same
/// regions are sorted into the same sequence. (Regions that start at the same
/// address come out in the order in which they went in.)
pub proof fn lemma_sort_ignores_order(a: Seq<RegionView>, b: Seq<RegionView>)
    requires
        a.to_multiset() == b.to_multiset(),
        distinct_starts(a),
    ensures
        sort_by_start(a) == sort_by_start(b),
{
    lemma_distinct_permutes(a, b);
    lemma_sort_by_start(a);
    lemma_sort_by_start(b);
    lemma_sort_keeps_distinct(a);
    lemma_sort_keeps_distinct(b);
    lemma_order_is_unique(sort_by_start(a), sort_by_start(b));
}

} // verus!
