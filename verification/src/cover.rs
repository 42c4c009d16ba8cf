//! One pass over the list that sets every visibility flag.
//!
//! Going down the list it is enough to remember one number: the indent of
//! the outermost collapsed directory that the pass is still inside of. A
//! node is hidden exactly if it is indented deeper than that.

use crate::item::ItemView;
use crate::layout::{
    is_ancestor, lemma_same_shape_ancestor, lemma_same_tree_shown, lemma_same_tree_trans, same_tree,
    settled_below, shown, unchanged_outside,
};
use vstd::prelude::*;

verus! {

/// `a` is `j` or an ancestor of `j`.
pub open spec fn within(items: Seq<ItemView>, a: int, j: int) -> bool {
    (a == j && 0 <= j < items.len()) || is_ancestor(items, a, j)
}

/// `cover` is the indent of the outermost collapsed node among `j` and its
/// ancestors, if one of them is collapsed. Nodes that follow `j` are hidden
/// for as long as they are indented deeper than that.
pub open spec fn covered(items: Seq<ItemView>, j: int, cover: Option<u8>) -> bool {
    match cover {
        None => forall|a: int| #[trigger] within(items, a, j) ==> !items[a].collapsed,
        Some(c) => {
            &&& exists|a: int| #[trigger] within(items, a, j) && items[a].collapsed && items[a].indent == c
            &&& forall|a: int| #[trigger] within(items, a, j) && items[a].collapsed ==> items[a].indent >= c
        },
    }
}

/// Whether the node after `j` is hidden, given what covers `j`.
pub open spec fn hidden_next(items: Seq<ItemView>, j: int, cover: Option<u8>) -> bool {
    match cover {
        Some(c) => items[j + 1].indent > c,
        None => false,
    }
}

/// What covers the node after `j`, given what covers `j`.
pub open spec fn cover_next(items: Seq<ItemView>, j: int, cover: Option<u8>) -> Option<u8> {
    if hidden_next(items, j, cover) {
        cover
    } else if items[j + 1].collapsed {
        Some(items[j + 1].indent as u8)
    } else {
        None
    }
}

/// The ancestors of a node are, of the node before it and that node's
/// ancestors, those that are indented less.
pub proof fn lemma_ancestors_of_next(items: Seq<ItemView>, d: int, a: int)
    requires
        0 <= d < items.len(),
    ensures
        is_ancestor(items, a, d) <==> (within(items, a, d - 1) && items[a].indent < items[d].indent),
{
    if is_ancestor(items, a, d) {
        assert(items[d].indent > items[a].indent);
        if a < d - 1 {
            assert(is_ancestor(items, a, d - 1));
        }
    }
    if within(items, a, d - 1) && items[a].indent < items[d].indent {
        assert forall|k: int| a < k <= d implies (#[trigger] items[k]).indent > items[a].indent by {}
    }
}

/// The cover tells whether the next node is shown.
pub proof fn lemma_cover_decides(items: Seq<ItemView>, d: int, cover: Option<u8>)
    requires
        0 <= d < items.len(),
        covered(items, d - 1, cover),
    ensures
        shown(items, d) == !hidden_next(items, d - 1, cover),
{
    assert forall|a: int| true implies (is_ancestor(items, a, d) <==> (within(items, a, d - 1)
        && items[a].indent < items[d].indent)) by {
        lemma_ancestors_of_next(items, d, a);
    }
    match cover {
        Some(c) => {
            let top = choose|a: int| #[trigger]
                within(items, a, d - 1) && items[a].collapsed && items[a].indent == c;
            if items[d].indent > c {
                assert(is_ancestor(items, top, d));
            } else {
                assert forall|a: int| #[trigger] is_ancestor(items, a, d) implies !items[a].collapsed by {
                    assert(within(items, a, d - 1));
                }
            }
        },
        None => {
            assert forall|a: int| #[trigger] is_ancestor(items, a, d) implies !items[a].collapsed by {
                assert(within(items, a, d - 1));
            }
        },
    }
}

/// The next cover is the cover of the next node.
pub proof fn lemma_cover_advances(items: Seq<ItemView>, d: int, cover: Option<u8>)
    requires
        0 <= d < items.len(),
        items[d].indent <= u8::MAX,
        covered(items, d - 1, cover),
    ensures
        covered(items, d, cover_next(items, d - 1, cover)),
{
    lemma_cover_decides(items, d, cover);
    assert forall|a: int| true implies (is_ancestor(items, a, d) <==> (within(items, a, d - 1)
        && items[a].indent < items[d].indent)) by {
        lemma_ancestors_of_next(items, d, a);
    }
    if hidden_next(items, d - 1, cover) {
        let c = cover.unwrap();
        let top = choose|a: int| #[trigger]
            within(items, a, d - 1) && items[a].collapsed && items[a].indent == c;
        assert(is_ancestor(items, top, d));
        assert(within(items, top, d));
        assert forall|a: int| #[trigger] within(items, a, d) && items[a].collapsed implies items[a].indent
            >= c by {
            if a != d {
                assert(within(items, a, d - 1));
            }
        }
    } else {
        assert forall|a: int| #[trigger] within(items, a, d) && items[a].collapsed implies a == d by {
            if a != d {
                assert(is_ancestor(items, a, d));
            }
        }
        if items[d].collapsed {
            assert(within(items, d, d));
        }
    }
}

/// What covers a node depends on the indents and the collapse flags alone.
pub proof fn lemma_same_tree_covered(x: Seq<ItemView>, y: Seq<ItemView>, j: int, cover: Option<u8>)
    requires
        same_tree(x, y),
        covered(x, j, cover),
    ensures
        covered(y, j, cover),
{
    assert forall|a: int| true implies (#[trigger] within(x, a, j) <==> within(y, a, j)) by {
        lemma_same_shape_ancestor(x, y, a, j);
    }
    assert forall|a: int| #[trigger] within(y, a, j) implies (y[a].collapsed == x[a].collapsed && y[a].indent
        == x[a].indent) by {
        assert(within(x, a, j));
        assert(x[a].collapsed == y[a].collapsed);
    }
    match cover {
        Some(c) => {
            let top = choose|a: int| #[trigger] within(x, a, j) && x[a].collapsed && x[a].indent == c;
            assert(within(y, top, j) && y[top].collapsed && y[top].indent == c);
            assert forall|a: int| #[trigger] within(y, a, j) && y[a].collapsed implies y[a].indent >= c by {
                assert(within(x, a, j));
            }
        },
        None => {
            assert forall|a: int| #[trigger] within(y, a, j) implies !y[a].collapsed by {
                assert(within(x, a, j));
            }
        },
    }
}

/// A visible node is covered by itself if it is collapsed, and by nothing if not.
pub proof fn lemma_cover_of_visible(items: Seq<ItemView>, j: int)
    requires
        0 <= j < items.len(),
        items[j].indent <= u8::MAX,
        shown(items, j),
    ensures
        covered(
            items,
            j,
            if items[j].collapsed {
                Some(items[j].indent as u8)
            } else {
                None
            },
        ),
{
    if items[j].collapsed {
        assert(within(items, j, j));
    }
}

/// How far a pass over the visibility flags has come: the flags before
/// `upto` are settled, those outside `from..upto` are as they were, and
/// `cover` covers the node before `upto`.
pub closed spec fn refreshed(
    before: Seq<ItemView>,
    now: Seq<ItemView>,
    from: int,
    upto: int,
    cover: Option<u8>,
) -> bool {
    &&& same_tree(before, now)
    &&& settled_below(now, upto)
    &&& covered(now, upto - 1, cover)
    &&& unchanged_outside(before, now, from, upto)
}

/// A pass begins where the flags are settled and the cover is known.
pub proof fn lemma_refresh_begins(items: Seq<ItemView>, from: int, cover: Option<u8>)
    requires
        settled_below(items, from),
        covered(items, from - 1, cover),
    ensures
        refreshed(items, items, from, from, cover),
{
}

/// Giving node `d` the flag that the cover dictates takes the pass one node further.
pub proof fn lemma_refresh_step(
    before: Seq<ItemView>,
    now: Seq<ItemView>,
    from: int,
    d: int,
    cover: Option<u8>,
)
    requires
        0 <= from <= d < now.len(),
        now[d].indent <= u8::MAX,
        refreshed(before, now, from, d, cover),
    ensures
        refreshed(
            before,
            now.update(d, (ItemView { visible: !hidden_next(now, d - 1, cover), ..now[d] })),
            from,
            d + 1,
            cover_next(now, d - 1, cover),
        ),
{
    let after = now.update(d, (ItemView { visible: !hidden_next(now, d - 1, cover), ..now[d] }));
    let next = cover_next(now, d - 1, cover);
    lemma_cover_decides(now, d, cover);
    lemma_cover_advances(now, d, cover);
    assert(same_tree(now, after));
    lemma_same_tree_trans(before, now, after);
    lemma_same_tree_covered(now, after, d, next);
    assert forall|k: int| 0 <= k < d + 1 && k < after.len() implies (#[trigger] after[k]).visible == shown(
        after,
        k,
    ) by {
        lemma_same_tree_shown(now, after, k);
        if k < d {
            assert(now[k].visible == shown(now, k));
        }
    }
    assert forall|k: int| 0 <= k < after.len() && !(from <= k < d + 1) implies (#[trigger] after[k]).visible
        == before[k].visible by {
        assert(now[k].visible == before[k].visible);
    }
}

/// What a pass has achieved.
pub proof fn lemma_refresh_ends(
    before: Seq<ItemView>,
    now: Seq<ItemView>,
    from: int,
    upto: int,
    cover: Option<u8>,
)
    requires
        refreshed(before, now, from, upto, cover),
    ensures
        same_tree(before, now),
        settled_below(now, upto),
        unchanged_outside(before, now, from, upto),
{
}

} // verus!
