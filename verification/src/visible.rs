//! The visible nodes of a list, in order, and positions among them.

use crate::item::ItemView;
use vstd::prelude::*;

verus! {

/// Whether `i` is an index of the list and its node is flagged visible.
pub open spec fn visible_at(items: Seq<ItemView>, i: int) -> bool {
    0 <= i < items.len() && items[i].visible
}

/// The visible indices in `lo..hi`, ascending.
pub open spec fn visible_up(items: Seq<ItemView>, lo: int, hi: int) -> Seq<int>
    decreases hi - lo,
{
    if hi <= lo {
        Seq::empty()
    } else if visible_at(items, hi - 1) {
        visible_up(items, lo, hi - 1).push(hi - 1)
    } else {
        visible_up(items, lo, hi - 1)
    }
}

/// The visible indices in `lo..hi`, descending.
pub open spec fn visible_down(items: Seq<ItemView>, lo: int, hi: int) -> Seq<int>
    decreases hi - lo,
{
    if hi <= lo {
        Seq::empty()
    } else if visible_at(items, lo) {
        visible_down(items, lo + 1, hi).push(lo)
    } else {
        visible_down(items, lo + 1, hi)
    }
}

/// All visible indices, ascending: the rows as they are drawn.
pub open spec fn visible_rows(items: Seq<ItemView>) -> Seq<int> {
    visible_up(items, 0, items.len() as int)
}

/// How many visible nodes come before `i`: the visual index of `i`, if `i` is visible.
pub open spec fn rank(items: Seq<ItemView>, i: int) -> nat {
    visible_up(items, 0, i).len()
}

/// Of the candidates, in their order, take the first `k` and keep the last of those.
pub open spec fn pick(candidates: Seq<int>, k: nat) -> Option<int> {
    if k == 0 || candidates.len() == 0 {
        None
    } else if k <= candidates.len() {
        Some(candidates[k - 1])
    } else {
        Some(candidates.last())
    }
}

/// At most `max` visible indices from `start` on, ascending.
pub open spec fn visible_window(items: Seq<ItemView>, start: int, max: nat) -> Seq<int> {
    let all = visible_up(items, start, items.len() as int);
    if max <= all.len() {
        all.take(max as int)
    } else {
        all
    }
}

/// What `visible_up` holds: exactly the visible indices of the range, in
/// strictly ascending order.
pub proof fn lemma_visible_up(items: Seq<ItemView>, lo: int, hi: int)
    ensures
        visible_up(items, lo, hi).len() <= if hi <= lo { 0 } else { hi - lo },
        forall|j: int|
            0 <= j < visible_up(items, lo, hi).len() ==> {
                let v = #[trigger] visible_up(items, lo, hi)[j];
                lo <= v < hi && visible_at(items, v)
            },
        forall|j: int, k: int|
            0 <= j < k < visible_up(items, lo, hi).len() ==> #[trigger] visible_up(items, lo, hi)[j]
                < #[trigger] visible_up(items, lo, hi)[k],
        forall|v: int|
            lo <= v < hi && #[trigger] visible_at(items, v) ==> visible_up(items, lo, hi).contains(v),
    decreases hi - lo,
{
    if hi > lo {
        lemma_visible_up(items, lo, hi - 1);
        let rest = visible_up(items, lo, hi - 1);
        let all = visible_up(items, lo, hi);
        assert forall|v: int| lo <= v < hi && #[trigger] visible_at(items, v) implies all.contains(v) by {
            if v < hi - 1 {
                assert(rest.contains(v));
                let j = choose|j: int| 0 <= j < rest.len() && rest[j] == v;
                assert(all[j] == v);
            } else {
                assert(all[all.len() - 1] == v);
            }
        }
    }
}

/// What `visible_down` holds: exactly the visible indices of the range, in
/// strictly descending order.
pub proof fn lemma_visible_down(items: Seq<ItemView>, lo: int, hi: int)
    ensures
        visible_down(items, lo, hi).len() <= if hi <= lo { 0 } else { hi - lo },
        forall|j: int|
            0 <= j < visible_down(items, lo, hi).len() ==> {
                let v = #[trigger] visible_down(items, lo, hi)[j];
                lo <= v < hi && visible_at(items, v)
            },
        forall|j: int, k: int|
            0 <= j < k < visible_down(items, lo, hi).len() ==> #[trigger] visible_down(items, lo, hi)[j]
                > #[trigger] visible_down(items, lo, hi)[k],
        forall|v: int|
            lo <= v < hi && #[trigger] visible_at(items, v) ==> visible_down(items, lo, hi).contains(v),
    decreases hi - lo,
{
    if hi > lo {
        lemma_visible_down(items, lo + 1, hi);
        let rest = visible_down(items, lo + 1, hi);
        let all = visible_down(items, lo, hi);
        assert forall|v: int| lo <= v < hi && #[trigger] visible_at(items, v) implies all.contains(v) by {
            if v > lo {
                assert(rest.contains(v));
                let j = choose|j: int| 0 <= j < rest.len() && rest[j] == v;
                assert(all[j] == v);
            } else {
                assert(all[all.len() - 1] == v);
            }
        }
    }
}

/// The visible indices of a range are those of its lower part, then those of its upper part.
pub proof fn lemma_visible_up_split(items: Seq<ItemView>, lo: int, mid: int, hi: int)
    requires
        lo <= mid <= hi,
    ensures
        visible_up(items, lo, hi) == visible_up(items, lo, mid) + visible_up(items, mid, hi),
    decreases hi - mid,
{
    if hi > mid {
        lemma_visible_up_split(items, lo, mid, hi - 1);
        assert(visible_up(items, lo, hi) =~= visible_up(items, lo, mid) + visible_up(items, mid, hi));
    } else {
        assert(visible_up(items, lo, hi) =~= visible_up(items, lo, mid) + visible_up(items, mid, hi));
    }
}

/// Descending, the visible indices of a range are those of its upper part,
/// then those of its lower part.
pub proof fn lemma_visible_down_split(items: Seq<ItemView>, lo: int, mid: int, hi: int)
    requires
        lo <= mid <= hi,
    ensures
        visible_down(items, lo, hi) == visible_down(items, mid, hi) + visible_down(items, lo, mid),
    decreases mid - lo,
{
    if mid > lo {
        lemma_visible_down_split(items, lo + 1, mid, hi);
        assert(visible_down(items, lo, hi) =~= visible_down(items, mid, hi) + visible_down(
            items,
            lo,
            mid,
        ));
    } else {
        assert(visible_down(items, lo, hi) =~= visible_down(items, mid, hi) + visible_down(
            items,
            lo,
            mid,
        ));
    }
}

/// A visible node stands in the rows at its rank.
pub proof fn lemma_rank(items: Seq<ItemView>, i: int)
    requires
        visible_at(items, i),
    ensures
        rank(items, i) < visible_rows(items).len(),
        visible_rows(items)[rank(items, i) as int] == i,
{
    let n = items.len() as int;
    lemma_visible_up_split(items, 0, i, i + 1);
    lemma_visible_up_split(items, 0, i + 1, n);
    assert(visible_up(items, i, i + 1) =~= seq![i]) by {
        assert(visible_up(items, i, i) =~= Seq::empty());
    }
}

} // verus!
