//! What holds of the tree across commands.

use crate::filetree::{
    coherent, resolves, rows_from, selects_anew, tree_after, tree_selecting, TreeView,
};
use crate::item::ItemView;
use crate::layout::{
    consistent, is_ancestor, lemma_descendants, lemma_same_shape_ancestor, lemma_settle_unique,
    lemma_shown_outside_subtree, same_shape, same_tree, shown, subtree_end,
};
use crate::navigation::{
    find_path, landing, lemma_find_path, lemma_landing_in_range, lemma_visual_of, list_after,
    MoveSelection, row_to_absolute, toggles, visual_of,
};
use crate::toggle::{lemma_toggled_consistent, toggle_flags, toggled};
use crate::unfold::{lemma_revealed_consistent, revealed};
use crate::visible::{
    lemma_rank, lemma_visible_down, lemma_visible_up, visible_at, visible_down, visible_up,
    visible_window,
};
use vstd::prelude::*;

verus! {

/// No command makes a selection out of none, and none loses one: a tree
/// that has a selection has one after every command.
pub proof fn lemma_selection_kept(tree: TreeView, command: MoveSelection)
    ensures
        tree_after(tree, command).selection is Some <==> tree.selection is Some,
{
}

/// From a visible node, the nearest visible node below has that node as the
/// nearest visible node above.
pub proof fn lemma_up_undoes_down(items: Seq<ItemView>, current: int, height: Option<usize>)
    requires
        visible_at(items, current),
        landing(items, current, MoveSelection::Down, height) is Some,
    ensures
        landing(
            items,
            landing(items, current, MoveSelection::Down, height).unwrap(),
            MoveSelection::Up,
            height,
        ) == Some(current),
{
    let n = items.len() as int;
    let below = visible_up(items, current + 1, n);
    let next = below[0];
    lemma_visible_up(items, current + 1, n);
    assert(current < next < n && visible_at(items, next));
    let above = visible_down(items, 0, next);
    lemma_visible_down(items, 0, next);
    assert(above.contains(current));
    let top = above[0];
    let at = choose|j: int| 0 <= j < above.len() && above[j] == current;
    assert(top >= current) by {
        if at > 0 {
            assert(above[0] > above[at]);
        }
    }
    if top > current {
        assert(visible_at(items, top));
        assert(below.contains(top));
        let j = choose|j: int| 0 <= j < below.len() && below[j] == top;
        if j > 0 {
            assert(below[0] < below[j]);
        }
    }
}

/// In a tree with no collapsed directory and a selection that is not on the
/// last node, `Down` followed by `Up` brings the selection back to where it was.
pub proof fn lemma_down_then_up(tree: TreeView)
    requires
        coherent(tree),
        forall|i: int| 0 <= i < tree.items.len() ==> !(#[trigger] tree.items[i]).collapsed,
        tree.selection is Some,
        tree.selection.unwrap() + 1 < tree.items.len(),
    ensures
        tree_after(tree_after(tree, MoveSelection::Down), MoveSelection::Up).selection == tree.selection,
        tree_after(tree_after(tree, MoveSelection::Down), MoveSelection::Up).items == tree.items,
{
    let items = tree.items;
    let n = items.len() as int;
    let current = tree.selection.unwrap() as int;
    assert forall|i: int| 0 <= i < n implies visible_at(items, i) by {
        assert(shown(items, i)) by {
            assert forall|a: int| #[trigger] is_ancestor(items, a, i) implies !items[a].collapsed by {}
        }
        assert(items[i].visible == shown(items, i));
    }
    lemma_visible_up(items, current + 1, n);
    assert(visible_at(items, current + 1));
    assert(visible_up(items, current + 1, n).contains(current + 1));
    lemma_up_undoes_down(items, current, tree.window_height);
    lemma_landing_in_range(items, current, MoveSelection::Down, tree.window_height);
    let next = landing(items, current, MoveSelection::Down, tree.window_height).unwrap();
    let down = tree_after(tree, MoveSelection::Down);
    assert(down.selection == Some(next as usize));
    assert(down.items == items);
}

/// Collapsing a directory hides every node below it, and no row that is
/// drawn afterwards is one of them.
pub proof fn lemma_collapse_hides(items: Seq<ItemView>, index: int, recursive: bool, below: int)
    requires
        consistent(items),
        0 <= index < items.len(),
        items[index].is_dir,
        is_ancestor(items, index, below),
    ensures
        !toggled(items, index, true, recursive)[below].visible,
        forall|start_visual: int, max: nat|
            !(#[trigger] rows_from(toggled(items, index, true, recursive), start_visual, max)).contains(
                below,
            ),
{
    let flags = toggle_flags(items, index, true, recursive);
    let after = toggled(items, index, true, recursive);
    assert(is_ancestor(flags, index, below)) by {
        assert forall|k: int| index < k <= below implies (#[trigger] flags[k]).indent > flags[index].indent by {
            assert(items[k].indent > items[index].indent);
        }
    }
    assert(flags[index].collapsed);
    assert(!shown(flags, below));
    assert forall|start_visual: int, max: nat|
        !(#[trigger] rows_from(after, start_visual, max)).contains(below) by {
        let start = match row_to_absolute(after, start_visual) {
            Some(absolute) => absolute,
            None => 0,
        };
        lemma_window_visible(after, start, max);
    }
}

/// Every row of a window is a visible node.
pub proof fn lemma_window_visible(items: Seq<ItemView>, start: int, max: nat)
    ensures
        forall|v: int| #[trigger] visible_window(items, start, max).contains(v) ==> visible_at(items, v),
{
    let all = visible_up(items, start, items.len() as int);
    lemma_visible_up(items, start, items.len() as int);
    assert forall|v: int| #[trigger] visible_window(items, start, max).contains(v) implies visible_at(
        items,
        v,
    ) by {
        let window = visible_window(items, start, max);
        let j = choose|j: int| 0 <= j < window.len() && window[j] == v;
        assert(all[j] == v);
    }
}

/// Expanding a directory that was just collapsed, one level each time,
/// gives back the list as it was.
pub proof fn lemma_expand_restores(items: Seq<ItemView>, index: int)
    requires
        consistent(items),
        0 <= index < items.len(),
        items[index].is_dir,
        !items[index].collapsed,
    ensures
        toggled(toggled(items, index, true, false), index, false, false) == items,
{
    let collapsed = toggled(items, index, true, false);
    let flags = toggle_flags(collapsed, index, false, false);
    assert(same_tree(flags, items)) by {
        assert forall|i: int| 0 <= i < flags.len() implies {
            &&& (#[trigger] flags[i]).path == (#[trigger] items[i]).path
            &&& flags[i].indent == items[i].indent
            &&& flags[i].is_dir == items[i].is_dir
            &&& flags[i].collapsed == items[i].collapsed
        } by {
            assert(collapsed[i].path == items[i].path);
        }
    }
    lemma_settle_unique(flags, items);
}

/// Expanding a directory with all below it, after it was collapsed with all
/// below it, gives back the list as it was, if no directory among them had
/// been collapsed before.
pub proof fn lemma_expand_recursive_restores(items: Seq<ItemView>, index: int)
    requires
        consistent(items),
        0 <= index < items.len(),
        items[index].is_dir,
        !items[index].collapsed,
        forall|below: int| #[trigger] is_ancestor(items, index, below) ==> !items[below].collapsed,
    ensures
        toggled(toggled(items, index, true, true), index, false, true) == items,
{
    let collapsed = toggled(items, index, true, true);
    let flags = toggle_flags(collapsed, index, false, true);
    assert(same_shape(items, collapsed));
    assert(same_tree(flags, items)) by {
        assert forall|i: int| 0 <= i < flags.len() implies {
            &&& (#[trigger] flags[i]).path == (#[trigger] items[i]).path
            &&& flags[i].indent == items[i].indent
            &&& flags[i].is_dir == items[i].is_dir
            &&& flags[i].collapsed == items[i].collapsed
        } by {
            assert(collapsed[i].path == items[i].path);
            lemma_same_shape_ancestor(items, collapsed, index, i);
        }
    }
    lemma_settle_unique(flags, items);
}

/// `Left` on an expanded directory and `Right` on a collapsed one leave the
/// selection and every node in its place. They change the collapse flag of
/// that one directory, and the visibility of nodes below it and of no other.
pub proof fn lemma_toggle_in_place(tree: TreeView, command: MoveSelection)
    requires
        coherent(tree),
        tree.selection is Some,
        toggles(tree.items, tree.selection.unwrap() as int, command),
    ensures
        tree_after(tree, command).selection == tree.selection,
        tree_after(tree, command).visual_selection == tree.visual_selection,
        same_shape(tree.items, tree_after(tree, command).items),
        forall|i: int|
            0 <= i < tree.items.len() && i != tree.selection.unwrap() ==> (#[trigger] tree_after(
                tree,
                command,
            ).items[i]).collapsed == tree.items[i].collapsed,
        tree_after(tree, command).items[tree.selection.unwrap() as int].collapsed == (command
            == MoveSelection::Left),
        forall|i: int|
            0 <= i < tree.items.len() && !is_ancestor(tree.items, tree.selection.unwrap() as int, i)
                ==> (#[trigger] tree_after(tree, command).items[i]).visible == tree.items[i].visible,
{
    let items = tree.items;
    let current = tree.selection.unwrap() as int;
    let collapse = command == MoveSelection::Left;
    let flags = toggle_flags(items, current, collapse, false);
    let after = tree_after(tree, command).items;
    assert(after == list_after(items, current, command));
    assert(same_shape(items, flags));
    assert forall|i: int| 0 <= i < items.len() && !is_ancestor(items, current, i) implies (#[trigger] after[i]).visible
        == items[i].visible by {
        lemma_descendants(items, current, i);
        assert forall|k: int|
            0 <= k < items.len() && !(current <= k < subtree_end(items, current)) implies (#[trigger] flags[k]).collapsed
            == items[k].collapsed by {}
        lemma_shown_outside_subtree(items, flags, current, i);
        assert(items[i].visible == shown(items, i));
    }
}

/// Every command keeps what holds of every tree: afterwards a node is
/// selected exactly if the list is not empty, the selection points into the
/// list, and the visual position has its index below its count.
pub proof fn lemma_command_keeps_coherence(tree: TreeView, command: MoveSelection)
    requires
        coherent(tree),
    ensures
        coherent(tree_after(tree, command)),
        tree_after(tree, command).items.len() == tree.items.len(),
{
    if resolves(tree, command) {
        let current = tree.selection.unwrap() as int;
        let after = tree_after(tree, command);
        lemma_landing_in_range(tree.items, current, command, tree.window_height);
        let target = landing(tree.items, current, command, tree.window_height).unwrap();
        if toggles(tree.items, current, command) {
            lemma_toggled_consistent(tree.items, current, command == MoveSelection::Left, false);
        }
        assert(after.selection == Some(target as usize));
        if target != current {
            lemma_visual_of(after.items, target);
        }
    }
}

/// Selecting by path keeps what holds of every tree, and the node that it
/// selects is visible afterwards.
pub proof fn lemma_select_keeps_coherence(tree: TreeView, path: Seq<char>)
    requires
        coherent(tree),
    ensures
        coherent(tree_selecting(tree, path)),
        selects_anew(tree, path) ==> visible_at(
            tree_selecting(tree, path).items,
            tree_selecting(tree, path).selection.unwrap() as int,
        ),
{
    if selects_anew(tree, path) {
        lemma_find_path(tree.items, path, 0);
        let index = find_path(tree.items, path, 0).unwrap();
        lemma_revealed_consistent(tree.items, index);
        lemma_visual_of(revealed(tree.items, index), index);
    }
}

/// The two index spaces agree: the row in which a visible node is drawn
/// leads back to that node.
pub proof fn lemma_row_of_visible(items: Seq<ItemView>, selected: int)
    requires
        items.len() <= usize::MAX,
        visible_at(items, selected),
    ensures
        row_to_absolute(items, visual_of(items, selected).index as int) == Some(selected),
{
    lemma_rank(items, selected);
    lemma_visible_up(items, 0, items.len() as int);
}

} // verus!
