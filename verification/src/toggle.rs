//! Collapsing and expanding a directory, alone or with the directories below it.

use crate::item::ItemView;
use crate::layout::{
    consistent, is_ancestor, lemma_descendants, lemma_same_shape_ancestor, lemma_settle_consistent,
    lemma_settle_unique, lemma_shown_outside_subtree, lemma_subtree_end_from, same_shape, same_tree,
    settle, settled_below, shown, subtree_end, unchanged_outside,
};
use vstd::prelude::*;

verus! {

/// The list with the collapse flag of directory `index`, and with `recursive`
/// of every directory below it, set to `collapsed`. Visibility flags are untouched.
pub open spec fn toggle_flags(
    items: Seq<ItemView>,
    index: int,
    collapsed: bool,
    recursive: bool,
) -> Seq<ItemView> {
    Seq::new(
        items.len(),
        |k: int|
            if k == index || (recursive && is_ancestor(items, index, k)) {
                (ItemView { collapsed: items[k].is_dir && collapsed, ..items[k] })
            } else {
                items[k]
            },
    )
}

/// The list after collapsing (`collapsed`) or expanding (`!collapsed`) the node
/// at `index`: a file changes nothing; a directory has its flag set, with
/// `recursive` also the directories below it, and visibility follows.
pub open spec fn toggled(items: Seq<ItemView>, index: int, collapsed: bool, recursive: bool) -> Seq<ItemView> {
    if items[index].is_dir {
        settle(toggle_flags(items, index, collapsed, recursive))
    } else {
        items
    }
}

/// `toggle_flags`, done for the descendants before `upto` only.
pub open spec fn toggle_progress(
    items: Seq<ItemView>,
    index: int,
    collapsed: bool,
    recursive: bool,
    upto: int,
) -> Seq<ItemView> {
    Seq::new(
        items.len(),
        |k: int|
            if k == index || (recursive && index < k < upto) {
                (ItemView { collapsed: items[k].is_dir && collapsed, ..items[k] })
            } else {
                items[k]
            },
    )
}

/// Once the whole subtree is done, `toggle_progress` is `toggle_flags`.
pub proof fn lemma_toggle_progress_done(
    items: Seq<ItemView>,
    index: int,
    collapsed: bool,
    recursive: bool,
)
    requires
        0 <= index < items.len(),
    ensures
        toggle_progress(items, index, collapsed, recursive, subtree_end(items, index)) == toggle_flags(
            items,
            index,
            collapsed,
            recursive,
        ),
{
    let a = toggle_progress(items, index, collapsed, recursive, subtree_end(items, index));
    let b = toggle_flags(items, index, collapsed, recursive);
    assert forall|k: int| 0 <= k < items.len() implies a[k] == b[k] by {
        lemma_descendants(items, index, k);
    }
    assert(a =~= b);
}

/// Changing flags in the subtree of `index` leaves the nodes up to `index` settled.
pub proof fn lemma_toggle_keeps_prefix(
    items: Seq<ItemView>,
    index: int,
    collapsed: bool,
    recursive: bool,
)
    requires
        0 <= index < items.len(),
        consistent(items),
    ensures
        settled_below(toggle_flags(items, index, collapsed, recursive), index + 1),
{
    let flags = toggle_flags(items, index, collapsed, recursive);
    assert forall|k: int|
        0 <= k < items.len() && !(index <= k < subtree_end(items, index)) implies (#[trigger] flags[k]).collapsed
        == items[k].collapsed by {
        lemma_descendants(items, index, k);
    }
    assert(same_shape(items, flags));
    assert forall|i: int| 0 <= i < index + 1 implies (#[trigger] flags[i]).visible == shown(flags, i) by {
        lemma_shown_outside_subtree(items, flags, index, i);
        assert(items[i].visible == shown(items, i));
    }
}

/// Below a hidden directory everything is hidden, whatever flags change in its subtree.
pub proof fn lemma_hidden_subtree_stays(
    items: Seq<ItemView>,
    index: int,
    collapsed: bool,
    recursive: bool,
)
    requires
        0 <= index < items.len(),
        consistent(items),
        !items[index].visible,
    ensures
        settled_below(toggle_flags(items, index, collapsed, recursive), subtree_end(items, index)),
{
    let flags = toggle_flags(items, index, collapsed, recursive);
    lemma_toggle_keeps_prefix(items, index, collapsed, recursive);
    assert(items[index].visible == shown(items, index));
    let top = choose|a: int| #[trigger] is_ancestor(items, a, index) && items[a].collapsed;
    assert(flags[top].collapsed);
    assert forall|d: int| index < d < subtree_end(items, index) implies (#[trigger] flags[d]).visible == shown(
        flags,
        d,
    ) by {
        lemma_descendants(items, index, d);
        assert(is_ancestor(items, top, d)) by {
            assert forall|k: int| top < k <= d implies (#[trigger] items[k]).indent > items[top].indent by {
                if k > index {
                    assert(items[k].indent > items[index].indent);
                    assert(items[index].indent > items[top].indent);
                }
            }
        }
        assert(!shown(items, d));
        assert(items[d].visible == shown(items, d));
        lemma_same_shape_ancestor(items, flags, top, d);
        assert(is_ancestor(flags, top, d));
    }
}

/// After the flags in the subtree of `index` changed and the visibility flags
/// of its descendants were set anew, the whole list is consistent again.
pub proof fn lemma_toggle_settles(
    items: Seq<ItemView>,
    index: int,
    collapsed: bool,
    recursive: bool,
    result: Seq<ItemView>,
)
    requires
        0 <= index < items.len(),
        items[index].is_dir,
        consistent(items),
        same_tree(toggle_flags(items, index, collapsed, recursive), result),
        unchanged_outside(
            toggle_flags(items, index, collapsed, recursive),
            result,
            index + 1,
            subtree_end(items, index),
        ),
        settled_below(result, subtree_end(items, index)),
    ensures
        result == toggled(items, index, collapsed, recursive),
        consistent(result),
{
    let flags = toggle_flags(items, index, collapsed, recursive);
    lemma_subtree_end_from(items, index, index + 1);
    assert forall|i: int| 0 <= i < result.len() implies (#[trigger] result[i]).visible == shown(
        result,
        i,
    ) by {
        if !(index < i < subtree_end(items, index)) {
            assert(result[i].visible == flags[i].visible);
            assert forall|k: int|
                0 <= k < items.len() && !(index <= k < subtree_end(items, index)) implies (
            #[trigger] result[k]).collapsed == items[k].collapsed by {
                lemma_descendants(items, index, k);
                assert(flags[k].collapsed == result[k].collapsed);
            }
            assert(same_shape(items, result)) by {
                assert forall|k: int| 0 <= k < items.len() implies {
                    &&& (#[trigger] items[k]).path == (#[trigger] result[k]).path
                    &&& items[k].indent == result[k].indent
                    &&& items[k].is_dir == result[k].is_dir
                } by {
                    assert(flags[k].path == result[k].path);
                }
            }
            lemma_shown_outside_subtree(items, result, index, i);
            assert(items[i].visible == shown(items, i));
        }
    }
    assert forall|i: int| 0 <= i < result.len() && (#[trigger] result[i]).collapsed implies result[i].is_dir by {
        assert(flags[i].collapsed == result[i].collapsed);
        assert(flags[i].is_dir == result[i].is_dir);
        assert(items[i].collapsed ==> items[i].is_dir);
    }
    lemma_settle_unique(flags, result);
}

/// Collapsing and expanding keep a list consistent, and every node in its place.
pub proof fn lemma_toggled_consistent(
    items: Seq<ItemView>,
    index: int,
    collapsed: bool,
    recursive: bool,
)
    requires
        consistent(items),
        0 <= index < items.len(),
    ensures
        consistent(toggled(items, index, collapsed, recursive)),
        same_shape(items, toggled(items, index, collapsed, recursive)),
{
    if items[index].is_dir {
        let flags = toggle_flags(items, index, collapsed, recursive);
        assert forall|i: int| 0 <= i < flags.len() && (#[trigger] flags[i]).collapsed implies flags[i].is_dir by {
            assert(items[i].collapsed ==> items[i].is_dir);
        }
        lemma_settle_consistent(flags);
        assert(same_shape(items, flags));
    }
}

} // verus!
