//! Bringing a node into view by expanding the directories above it.

use crate::item::ItemView;
use crate::layout::{
    consistent, is_ancestor, lemma_ancestors_through_parent, lemma_same_shape_ancestor,
    lemma_settle_consistent, lemma_settle_unique, lemma_shown_by_parent, parent, same_shape,
    same_tree, settle, settled_below, shown,
};
use vstd::prelude::*;

verus! {

/// The list with every ancestor of `index` expanded. Visibility flags are untouched.
pub open spec fn reveal_flags(items: Seq<ItemView>, index: int) -> Seq<ItemView> {
    Seq::new(
        items.len(),
        |k: int|
            if is_ancestor(items, k, index) {
                (ItemView { collapsed: false, ..items[k] })
            } else {
                items[k]
            },
    )
}

/// The list after the node at `index` was brought into view: its ancestors
/// are expanded, and visibility follows.
pub open spec fn revealed(items: Seq<ItemView>, index: int) -> Seq<ItemView> {
    settle(reveal_flags(items, index))
}

/// `reveal_flags`, done for the ancestors from `upto` on only.
pub open spec fn reveal_progress(items: Seq<ItemView>, index: int, upto: int) -> Seq<ItemView> {
    Seq::new(
        items.len(),
        |k: int|
            if is_ancestor(items, k, index) && k >= upto {
                (ItemView { collapsed: false, ..items[k] })
            } else {
                items[k]
            },
    )
}

/// `cur` is `index` or one of its ancestors, and the ancestors of `index`
/// before `cur` are the ancestors of `cur`.
pub open spec fn on_chain(items: Seq<ItemView>, index: int, cur: int) -> bool {
    &&& 0 <= cur <= index < items.len()
    &&& cur == index || is_ancestor(items, cur, index)
    &&& forall|a: int| (#[trigger] is_ancestor(items, a, index) && a < cur) <==> is_ancestor(items, a, cur)
}

/// Expanding the parent of `cur` is one step more of `reveal_progress`.
pub proof fn lemma_reveal_step(items: Seq<ItemView>, index: int, cur: int)
    requires
        on_chain(items, index, cur),
        parent(items, cur) >= 0,
    ensures
        ({
            let p = parent(items, cur);
            let now = reveal_progress(items, index, cur);
            &&& p < cur
            &&& on_chain(items, index, p)
            &&& now.update(p, (ItemView { collapsed: now[p].is_dir && false, ..now[p] }))
                == reveal_progress(items, index, p)
        }),
{
    let p = parent(items, cur);
    let now = reveal_progress(items, index, cur);
    lemma_shown_by_parent(items, cur);
    lemma_ancestors_through_parent(items, cur, p);
    assert(is_ancestor(items, p, cur));
    assert(is_ancestor(items, p, index));
    assert forall|a: int| (#[trigger] is_ancestor(items, a, index) && a < p) <==> is_ancestor(items, a, p) by {
        lemma_ancestors_through_parent(items, cur, a);
        if is_ancestor(items, a, index) && a < p {
            assert(is_ancestor(items, a, cur));
        }
        if is_ancestor(items, a, p) {
            assert(is_ancestor(items, a, cur));
        }
    }
    let next = now.update(p, (ItemView { collapsed: now[p].is_dir && false, ..now[p] }));
    let goal = reveal_progress(items, index, p);
    assert forall|k: int| 0 <= k < items.len() implies next[k] == goal[k] by {
        if is_ancestor(items, k, index) && k < cur && k != p {
            assert(is_ancestor(items, k, cur));
            lemma_ancestors_through_parent(items, cur, k);
        }
    }
    assert(next =~= goal);
}

/// At a node without a parent, `reveal_progress` is `reveal_flags`.
pub proof fn lemma_reveal_done(items: Seq<ItemView>, index: int, cur: int)
    requires
        on_chain(items, index, cur),
        parent(items, cur) < 0,
    ensures
        reveal_progress(items, index, cur) == reveal_flags(items, index),
{
    let a = reveal_progress(items, index, cur);
    let b = reveal_flags(items, index);
    assert forall|k: int| 0 <= k < items.len() implies a[k] == b[k] by {
        if is_ancestor(items, k, index) && k < cur {
            assert(is_ancestor(items, k, cur));
            lemma_ancestors_through_parent(items, cur, k);
        }
    }
    assert(a =~= b);
}

/// A settled list with the flags of `reveal_flags` is `revealed`, and consistent.
pub proof fn lemma_reveal_settles(items: Seq<ItemView>, index: int, result: Seq<ItemView>)
    requires
        0 <= index < items.len(),
        consistent(items),
        same_tree(reveal_flags(items, index), result),
        settled_below(result, result.len() as int),
    ensures
        result == revealed(items, index),
        consistent(result),
        same_shape(items, result),
        shown(result, index),
{
    let flags = reveal_flags(items, index);
    lemma_settle_unique(flags, result);
    assert forall|i: int| 0 <= i < result.len() && (#[trigger] result[i]).collapsed implies result[i].is_dir by {
        assert(flags[i].collapsed == result[i].collapsed);
        assert(flags[i].is_dir == result[i].is_dir);
        assert(items[i].collapsed ==> items[i].is_dir);
    }
    assert forall|k: int| 0 <= k < items.len() implies {
        &&& (#[trigger] items[k]).path == (#[trigger] result[k]).path
        &&& items[k].indent == result[k].indent
        &&& items[k].is_dir == result[k].is_dir
    } by {
        assert(flags[k].path == result[k].path);
    }
    assert forall|a: int| #[trigger] is_ancestor(result, a, index) implies !result[a].collapsed by {
        lemma_same_shape_ancestor(items, result, a, index);
        assert(flags[a].collapsed == result[a].collapsed);
    }
}

/// Bringing a node into view keeps a list consistent, and every node in its
/// place; the node is visible afterwards.
pub proof fn lemma_revealed_consistent(items: Seq<ItemView>, index: int)
    requires
        consistent(items),
        0 <= index < items.len(),
    ensures
        consistent(revealed(items, index)),
        same_shape(items, revealed(items, index)),
        revealed(items, index)[index].visible,
{
    let flags = reveal_flags(items, index);
    assert forall|i: int| 0 <= i < flags.len() && (#[trigger] flags[i]).collapsed implies flags[i].is_dir by {
        assert(items[i].collapsed ==> items[i].is_dir);
    }
    lemma_settle_consistent(flags);
    lemma_reveal_settles(items, index, settle(flags));
    assert(revealed(items, index)[index].visible == shown(revealed(items, index), index));
}

} // verus!
