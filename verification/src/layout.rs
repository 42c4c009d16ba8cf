//! The shape of a flattened tree, read off the indents alone.
//!
//! A node's descendants are the nodes that follow it for as long as they are
//! indented deeper; its ancestors are the nodes whose descendants include it.
//! Visibility derives from that: a node is shown exactly if none of its
//! ancestors is collapsed.

use crate::item::ItemView;
use vstd::prelude::*;

verus! {

/// `a` is a strict ancestor of `i`: every node after `a`, up to and including
/// `i`, is indented deeper than `a`.
pub open spec fn is_ancestor(items: Seq<ItemView>, a: int, i: int) -> bool {
    &&& 0 <= a < i < items.len()
    &&& forall|k: int| a < k <= i ==> (#[trigger] items[k]).indent > items[a].indent
}

/// No ancestor of `i` is collapsed.
pub open spec fn shown(items: Seq<ItemView>, i: int) -> bool {
    forall|a: int| #[trigger] is_ancestor(items, a, i) ==> !items[a].collapsed
}

/// Only directories are collapsed.
pub open spec fn only_dirs_collapsed(items: Seq<ItemView>) -> bool {
    forall|i: int| 0 <= i < items.len() ==> ((#[trigger] items[i]).collapsed ==> items[i].is_dir)
}

/// The visibility flags of the first `n` nodes are what the collapse flags say.
pub open spec fn settled_below(items: Seq<ItemView>, n: int) -> bool {
    forall|i: int| 0 <= i < n && i < items.len() ==> items[i].visible == #[trigger] shown(items, i)
}

/// The stored flags agree with the shape: only directories are collapsed, and
/// a node is flagged visible exactly if none of its ancestors is collapsed.
/// Every index fits a machine word.
pub open spec fn consistent(items: Seq<ItemView>) -> bool {
    &&& items.len() <= usize::MAX
    &&& only_dirs_collapsed(items)
    &&& settled_below(items, items.len() as int)
}

/// Two lists hold the same nodes in the same places; flags may differ.
pub open spec fn same_shape(a: Seq<ItemView>, b: Seq<ItemView>) -> bool {
    &&& a.len() == b.len()
    &&& forall|i: int|
        0 <= i < a.len() ==> {
            &&& (#[trigger] a[i]).path == (#[trigger] b[i]).path
            &&& a[i].indent == b[i].indent
            &&& a[i].is_dir == b[i].is_dir
        }
}

/// Two lists agree in shape and in which directories are collapsed.
pub open spec fn same_tree(a: Seq<ItemView>, b: Seq<ItemView>) -> bool {
    &&& same_shape(a, b)
    &&& forall|i: int| 0 <= i < a.len() ==> (#[trigger] a[i]).collapsed == (#[trigger] b[i]).collapsed
}

/// The visibility flags outside `from..to` are the same in both lists.
pub open spec fn unchanged_outside(
    before: Seq<ItemView>,
    after: Seq<ItemView>,
    from: int,
    to: int,
) -> bool {
    forall|i: int|
        0 <= i < after.len() && !(from <= i < to) ==> (#[trigger] after[i]).visible == before[i].visible
}

/// The list with every visibility flag set to what the collapse flags say.
pub open spec fn settle(items: Seq<ItemView>) -> Seq<ItemView> {
    Seq::new(items.len(), |i: int| (ItemView { visible: shown(items, i), ..items[i] }))
}

/// The first index after `i` that is not a descendant of `i`, searching from `k`.
pub open spec fn subtree_end_from(items: Seq<ItemView>, i: int, k: int) -> int
    decreases items.len() - k,
{
    if 0 <= i < k < items.len() && items[k].indent > items[i].indent {
        subtree_end_from(items, i, k + 1)
    } else {
        k
    }
}

/// The first index after `i` that is not a descendant of `i`.
pub open spec fn subtree_end(items: Seq<ItemView>, i: int) -> int {
    subtree_end_from(items, i, i + 1)
}

/// The nearest index at or below `j` that is indented less than `indent`, or -1.
pub open spec fn nearest_shallower(items: Seq<ItemView>, indent: nat, j: int) -> int
    decreases j + 1,
{
    if j < 0 || j >= items.len() {
        -1
    } else if items[j].indent < indent {
        j
    } else {
        nearest_shallower(items, indent, j - 1)
    }
}

/// The parent of `i`: its nearest ancestor, or -1 for a node at the top.
pub open spec fn parent(items: Seq<ItemView>, i: int) -> int {
    nearest_shallower(items, items[i].indent, i - 1)
}

/// How many of the first `n` nodes are files.
pub open spec fn files_below(items: Seq<ItemView>, n: int) -> nat
    decreases n,
{
    if n <= 0 || n > items.len() {
        0
    } else {
        files_below(items, n - 1) + if items[n - 1].is_dir { 0nat } else { 1nat }
    }
}

/// How many nodes are files.
pub open spec fn file_total(items: Seq<ItemView>) -> nat {
    files_below(items, items.len() as int)
}

/// Ancestry depends on the indents alone.
pub proof fn lemma_same_shape_ancestor(x: Seq<ItemView>, y: Seq<ItemView>, a: int, i: int)
    requires
        same_shape(x, y),
    ensures
        is_ancestor(x, a, i) == is_ancestor(y, a, i),
{
    if is_ancestor(x, a, i) {
        assert forall|k: int| a < k <= i implies (#[trigger] y[k]).indent > y[a].indent by {
            assert(x[k].indent > x[a].indent);
        }
    }
    if is_ancestor(y, a, i) {
        assert forall|k: int| a < k <= i implies (#[trigger] x[k]).indent > x[a].indent by {
            assert(y[k].indent > y[a].indent);
        }
    }
}

/// Whether a node is shown depends on the indents and the collapse flags alone.
pub proof fn lemma_same_tree_shown(x: Seq<ItemView>, y: Seq<ItemView>, i: int)
    requires
        same_tree(x, y),
    ensures
        shown(x, i) == shown(y, i),
{
    assert forall|a: int| true implies (#[trigger] is_ancestor(x, a, i) <==> is_ancestor(y, a, i)) by {
        lemma_same_shape_ancestor(x, y, a, i);
    }
    if shown(x, i) {
        assert forall|a: int| #[trigger] is_ancestor(y, a, i) implies !y[a].collapsed by {
            assert(is_ancestor(x, a, i));
            assert(x[a].collapsed == y[a].collapsed);
        }
    }
    if shown(y, i) {
        assert forall|a: int| #[trigger] is_ancestor(x, a, i) implies !x[a].collapsed by {
            assert(is_ancestor(y, a, i));
            assert(x[a].collapsed == y[a].collapsed);
        }
    }
}

/// `same_tree` is transitive.
pub proof fn lemma_same_tree_trans(x: Seq<ItemView>, y: Seq<ItemView>, z: Seq<ItemView>)
    requires
        same_tree(x, y),
        same_tree(y, z),
    ensures
        same_tree(x, z),
{
    assert forall|i: int| 0 <= i < x.len() implies {
        &&& (#[trigger] x[i]).path == (#[trigger] z[i]).path
        &&& x[i].indent == z[i].indent
        &&& x[i].is_dir == z[i].is_dir
        &&& x[i].collapsed == z[i].collapsed
    } by {
        assert(x[i].path == y[i].path && y[i].path == z[i].path);
        assert(x[i].collapsed == y[i].collapsed && y[i].collapsed == z[i].collapsed);
    }
}

/// A settled list is the settling of any list with the same tree.
pub proof fn lemma_settle_unique(target: Seq<ItemView>, settled: Seq<ItemView>)
    requires
        same_tree(target, settled),
        settled_below(settled, settled.len() as int),
    ensures
        settled == settle(target),
{
    assert forall|i: int| 0 <= i < settled.len() implies settled[i] == settle(target)[i] by {
        lemma_same_tree_shown(target, settled, i);
        assert(settled[i].visible == shown(settled, i));
        assert(target[i].path == settled[i].path);
        assert(target[i].collapsed == settled[i].collapsed);
    }
    assert(settled =~= settle(target));
}

/// Settling makes a list consistent, if only directories are collapsed in it.
pub proof fn lemma_settle_consistent(items: Seq<ItemView>)
    requires
        items.len() <= usize::MAX,
        forall|i: int| 0 <= i < items.len() ==> ((#[trigger] items[i]).collapsed ==> items[i].is_dir),
    ensures
        consistent(settle(items)),
        same_tree(items, settle(items)),
{
    let settled = settle(items);
    assert(same_tree(items, settled));
    assert forall|i: int| 0 <= i < settled.len() implies settled[i].visible == #[trigger] shown(settled, i) by {
        lemma_same_tree_shown(items, settled, i);
    }
    assert forall|i: int| 0 <= i < settled.len() && (#[trigger] settled[i]).collapsed implies settled[i].is_dir by {
        assert(items[i].collapsed ==> items[i].is_dir);
    }
}

/// What `nearest_shallower` finds, said without recursion.
pub proof fn lemma_nearest_shallower(items: Seq<ItemView>, indent: nat, j: int)
    requires
        -1 <= j < items.len(),
    ensures
        ({
            let p = nearest_shallower(items, indent, j);
            &&& -1 <= p <= j
            &&& p >= 0 ==> items[p].indent < indent
            &&& forall|k: int| p < k <= j ==> (#[trigger] items[k]).indent >= indent
        }),
    decreases j + 1,
{
    if j >= 0 && items[j].indent >= indent {
        lemma_nearest_shallower(items, indent, j - 1);
    }
}

/// The parent of a node depends on the indents alone.
pub proof fn lemma_same_shape_parent(x: Seq<ItemView>, y: Seq<ItemView>, indent: nat, j: int)
    requires
        same_shape(x, y),
    ensures
        nearest_shallower(x, indent, j) == nearest_shallower(y, indent, j),
    decreases j + 1,
{
    if 0 <= j < x.len() {
        assert(x[j].indent == y[j].indent);
        if x[j].indent >= indent {
            lemma_same_shape_parent(x, y, indent, j - 1);
        }
    }
}

/// The ancestors of a node are its parent and the parent's ancestors.
pub proof fn lemma_ancestors_through_parent(items: Seq<ItemView>, i: int, a: int)
    requires
        0 <= i < items.len(),
    ensures
        is_ancestor(items, a, i) <==> (parent(items, i) >= 0 && (a == parent(items, i)
            || is_ancestor(items, a, parent(items, i)))),
{
    let p = parent(items, i);
    lemma_nearest_shallower(items, items[i].indent, i - 1);
    if is_ancestor(items, a, i) {
        assert(items[i].indent > items[a].indent);
        if a > p {
            assert(items[a].indent >= items[i].indent);
        }
    }
    if p >= 0 && a != p && is_ancestor(items, a, p) {
        assert(items[p].indent > items[a].indent);
        assert forall|k: int| a < k <= i implies (#[trigger] items[k]).indent > items[a].indent by {
            if k > p {
                assert(items[k].indent >= items[i].indent);
            }
        }
    }
}

/// A node is shown exactly if it has no parent, or its parent is shown and expanded.
pub proof fn lemma_shown_by_parent(items: Seq<ItemView>, i: int)
    requires
        0 <= i < items.len(),
    ensures
        -1 <= parent(items, i) < i,
        shown(items, i) <==> (parent(items, i) < 0 || (!items[parent(items, i)].collapsed && shown(
            items,
            parent(items, i),
        ))),
{
    let p = parent(items, i);
    lemma_nearest_shallower(items, items[i].indent, i - 1);
    assert forall|a: int| true implies (is_ancestor(items, a, i) <==> (p >= 0 && (a == p
        || is_ancestor(items, a, p)))) by {
        lemma_ancestors_through_parent(items, i, a);
    }
    if p >= 0 {
        assert(is_ancestor(items, p, i));
        if shown(items, i) {
            assert forall|a: int| #[trigger] is_ancestor(items, a, p) implies !items[a].collapsed by {
                assert(is_ancestor(items, a, i));
            }
        }
    }
}

/// What `subtree_end_from` finds, said without recursion.
pub proof fn lemma_subtree_end_from(items: Seq<ItemView>, i: int, k: int)
    requires
        0 <= i < k <= items.len(),
    ensures
        ({
            let e = subtree_end_from(items, i, k);
            &&& k <= e <= items.len()
            &&& forall|j: int| k <= j < e ==> (#[trigger] items[j]).indent > items[i].indent
            &&& e < items.len() ==> items[e].indent <= items[i].indent
        }),
    decreases items.len() - k,
{
    if k < items.len() && items[k].indent > items[i].indent {
        lemma_subtree_end_from(items, i, k + 1);
    }
}

/// The descendants of `i` are exactly the indices between `i` and the end of its subtree.
pub proof fn lemma_descendants(items: Seq<ItemView>, i: int, d: int)
    requires
        0 <= i < items.len(),
    ensures
        i < subtree_end(items, i) <= items.len(),
        is_ancestor(items, i, d) <==> i < d < subtree_end(items, i),
{
    lemma_subtree_end_from(items, i, i + 1);
    let e = subtree_end(items, i);
    if is_ancestor(items, i, d) && d >= e {
        assert(items[e].indent > items[i].indent);
    }
}

/// Flags of `i` and of its descendants have no say in whether a node outside
/// that subtree is shown.
pub proof fn lemma_shown_outside_subtree(
    before: Seq<ItemView>,
    after: Seq<ItemView>,
    i: int,
    other: int,
)
    requires
        0 <= i < before.len(),
        same_shape(before, after),
        forall|k: int|
            0 <= k < before.len() && !(i <= k < subtree_end(before, i)) ==> (#[trigger] after[k]).collapsed
                == before[k].collapsed,
        0 <= other < before.len(),
        !(i < other < subtree_end(before, i)),
    ensures
        shown(after, other) == shown(before, other),
{
    lemma_subtree_end_from(before, i, i + 1);
    let e = subtree_end(before, i);
    assert forall|a: int| true implies (#[trigger] is_ancestor(after, a, other) <==> is_ancestor(
        before,
        a,
        other,
    )) by {
        lemma_same_shape_ancestor(before, after, a, other);
    }
    assert forall|a: int| #[trigger] is_ancestor(before, a, other) implies !(i <= a < e) by {
        if i <= a < e {
            assert(other >= e);
            assert(before[e].indent > before[a].indent);
            if a > i {
                assert(before[a].indent > before[i].indent);
            }
        }
    }
    if shown(before, other) {
        assert forall|a: int| #[trigger] is_ancestor(after, a, other) implies !after[a].collapsed by {
            assert(is_ancestor(before, a, other));
        }
    }
    if shown(after, other) {
        assert forall|a: int| #[trigger] is_ancestor(before, a, other) implies !before[a].collapsed by {
            assert(is_ancestor(after, a, other));
        }
    }
}

/// The number of files depends on the shape alone.
pub proof fn lemma_same_shape_files(x: Seq<ItemView>, y: Seq<ItemView>, n: int)
    requires
        same_shape(x, y),
    ensures
        files_below(x, n) == files_below(y, n),
    decreases n,
{
    if 0 < n <= x.len() {
        lemma_same_shape_files(x, y, n - 1);
        assert(x[n - 1].is_dir == y[n - 1].is_dir);
    }
}

/// A list that holds a file is not empty, and a count never exceeds the length.
pub proof fn lemma_files_below_bound(items: Seq<ItemView>, n: int)
    ensures
        files_below(items, n) <= items.len(),
        files_below(items, n) <= if n < 0 { 0 } else { n },
    decreases n,
{
    if 0 < n <= items.len() {
        lemma_files_below_bound(items, n - 1);
    }
}

} // verus!
