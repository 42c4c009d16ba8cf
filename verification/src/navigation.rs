//! Where each navigation command lands, as a function of the list and the
//! current selection.
//!
//! All commands but the two that toggle a directory follow one rule: walk a
//! range of absolute indices in one direction, keep the visible ones, take
//! the first `k` and land on the last of those.

use crate::item::ItemView;
use crate::layout::{consistent, is_ancestor, shown};
use crate::toggle::toggled;
use crate::visible::{
    lemma_rank, lemma_visible_down, lemma_visible_up, pick, rank, visible_at, visible_down,
    visible_rows, visible_up,
};
use vstd::prelude::*;

verus! {

/// A navigation command.
#[derive(Copy, Clone, Debug, PartialEq, Eq, Structural)]
pub enum MoveSelection {
    Up,
    Down,
    Left,
    Right,
    Top,
    End,
    PageDown,
    PageUp,
    HalfPageDown,
    HalfPageUp,
}

/// Where the selection stands among the visible nodes.
#[derive(Debug, Clone, Copy, PartialEq, Eq, Structural)]
pub struct VisualSelection {
    /// How many nodes are visible.
    pub count: usize,
    /// The rank of the selected node among the visible ones.
    pub index: usize,
}

/// An index as the contracts count it.
pub open spec fn position(index: Option<usize>) -> Option<int> {
    match index {
        Some(i) => Some(i as int),
        None => None,
    }
}

/// The size of a page jump: the window height, or nothing while none is set.
pub open spec fn page_size(window_height: Option<usize>) -> nat {
    match window_height {
        Some(h) => h as nat,
        None => 0,
    }
}

/// The nearest visible index at or below `j` that is indented less than `indent`.
pub open spec fn visible_shallower(items: Seq<ItemView>, indent: nat, j: int) -> Option<int>
    decreases j + 1,
{
    if j < 0 {
        None
    } else if visible_at(items, j) && items[j].indent < indent {
        Some(j)
    } else {
        visible_shallower(items, indent, j - 1)
    }
}

/// The nearest visible directory above `current`: the nearest visible index
/// before it that is indented less.
pub open spec fn visible_parent(items: Seq<ItemView>, current: int) -> Option<int> {
    visible_shallower(items, items[current].indent, current - 1)
}

/// Whether the command toggles the directory at `current` instead of moving.
pub open spec fn toggles(items: Seq<ItemView>, current: int, command: MoveSelection) -> bool {
    match command {
        MoveSelection::Left => items[current].is_dir && !items[current].collapsed,
        MoveSelection::Right => items[current].is_dir && items[current].collapsed,
        _ => false,
    }
}

/// The index that a command resolves to from `current`, if it resolves to any.
pub open spec fn landing(
    items: Seq<ItemView>,
    current: int,
    command: MoveSelection,
    window_height: Option<usize>,
) -> Option<int> {
    let n = items.len() as int;
    let page = page_size(window_height);
    match command {
        MoveSelection::Up => pick(visible_down(items, 0, current), 1),
        MoveSelection::Down => pick(visible_up(items, current + 1, n), 1),
        MoveSelection::Top => Some(0),
        MoveSelection::End => pick(visible_down(items, 0, n), 1),
        MoveSelection::PageUp => pick(visible_down(items, 0, current + 1), page),
        MoveSelection::PageDown => pick(visible_up(items, current, n), page),
        MoveSelection::HalfPageUp => pick(visible_down(items, 0, current + 1), page / 2),
        MoveSelection::HalfPageDown => pick(visible_up(items, current, n), page / 2),
        MoveSelection::Left => if toggles(items, current, command) {
            Some(current)
        } else {
            visible_parent(items, current)
        },
        MoveSelection::Right => if toggles(items, current, command) {
            Some(current)
        } else if items[current].is_dir {
            pick(visible_up(items, current + 1, n), 1)
        } else {
            None
        },
    }
}

/// The list after a command: `Left` collapses an expanded directory, `Right`
/// expands a collapsed one, one level each; nothing else changes the list.
pub open spec fn list_after(
    items: Seq<ItemView>,
    current: int,
    command: MoveSelection,
) -> Seq<ItemView> {
    if toggles(items, current, command) {
        toggled(items, current, command == MoveSelection::Left, false)
    } else {
        items
    }
}

/// The visual position of `selected`: the count of visible nodes, and the
/// rank of `selected` among them, or 0 if it is hidden.
pub open spec fn visual_of(items: Seq<ItemView>, selected: int) -> VisualSelection {
    VisualSelection {
        count: visible_rows(items).len() as usize,
        index: if visible_at(items, selected) {
            rank(items, selected) as usize
        } else {
            0
        },
    }
}

/// The visual position that goes with a selection.
pub open spec fn cache_of(
    items: Seq<ItemView>,
    selection: Option<usize>,
) -> Option<VisualSelection> {
    match selection {
        Some(selected) => Some(visual_of(items, selected as int)),
        None => None,
    }
}

/// In a consistent list the first node is visible, so a visual position
/// always has its index below its count.
pub proof fn lemma_visual_of(items: Seq<ItemView>, selected: int)
    requires
        consistent(items),
        0 <= selected < items.len() <= usize::MAX,
    ensures
        visual_of(items, selected).index < visual_of(items, selected).count,
        visual_of(items, selected).count == visible_rows(items).len(),
        visual_of(items, selected).count <= items.len(),
{
    let n = items.len() as int;
    lemma_visible_up(items, 0, n);
    if visible_at(items, selected) {
        lemma_rank(items, selected);
    } else {
        assert(shown(items, 0)) by {
            assert forall|a: int| #[trigger] is_ancestor(items, a, 0) implies !items[a].collapsed by {}
        }
        assert(items[0].visible);
        assert(visible_at(items, 0));
        assert(visible_rows(items).contains(0));
    }
}

/// The absolute index of the node drawn in row `visual`, if there is such a row.
pub open spec fn row_to_absolute(items: Seq<ItemView>, visual: int) -> Option<int> {
    if 0 <= visual < visible_rows(items).len() {
        Some(visible_rows(items)[visual])
    } else {
        None
    }
}

/// The first index whose node has this path.
pub open spec fn find_path(items: Seq<ItemView>, path: Seq<char>, from: int) -> Option<int>
    decreases items.len() - from,
{
    if from < 0 || from >= items.len() {
        None
    } else if items[from].path == path {
        Some(from)
    } else {
        find_path(items, path, from + 1)
    }
}

/// What `find_path` finds, said without recursion.
pub proof fn lemma_find_path(items: Seq<ItemView>, path: Seq<char>, from: int)
    requires
        0 <= from,
    ensures
        match find_path(items, path, from) {
            Some(i) => {
                &&& from <= i < items.len()
                &&& items[i].path == path
                &&& forall|k: int| from <= k < i ==> (#[trigger] items[k]).path != path
            },
            None => forall|k: int| from <= k < items.len() ==> (#[trigger] items[k]).path != path,
        },
    decreases items.len() - from,
{
    if from < items.len() && items[from].path != path {
        lemma_find_path(items, path, from + 1);
    }
}

/// What `visible_shallower` finds, said without recursion.
pub proof fn lemma_visible_shallower(items: Seq<ItemView>, indent: nat, j: int)
    requires
        j < items.len(),
    ensures
        match visible_shallower(items, indent, j) {
            Some(p) => {
                &&& 0 <= p <= j
                &&& visible_at(items, p)
                &&& items[p].indent < indent
                &&& forall|k: int| p < k <= j ==> !(#[trigger] visible_at(items, k) && items[k].indent < indent)
            },
            None => forall|k: int| 0 <= k <= j ==> !(#[trigger] visible_at(items, k) && items[k].indent < indent),
        },
    decreases j + 1,
{
    if j >= 0 && !(visible_at(items, j) && items[j].indent < indent) {
        lemma_visible_shallower(items, indent, j - 1);
    }
}

/// What `pick` takes is one of the candidates.
pub proof fn lemma_pick_member(candidates: Seq<int>, k: nat)
    ensures
        pick(candidates, k) is Some ==> candidates.contains(pick(candidates, k).unwrap()),
        pick(candidates, k) is Some <==> (k > 0 && candidates.len() > 0),
{
    if k > 0 && candidates.len() > 0 {
        if k <= candidates.len() {
            assert(candidates[k - 1] == pick(candidates, k).unwrap());
        } else {
            assert(candidates[candidates.len() - 1] == pick(candidates, k).unwrap());
        }
    }
}

/// Every command lands on an index of the list; every command but `Top` and
/// the toggles lands on a visible node.
pub proof fn lemma_landing_in_range(
    items: Seq<ItemView>,
    current: int,
    command: MoveSelection,
    window_height: Option<usize>,
)
    requires
        0 <= current < items.len(),
    ensures
        landing(items, current, command, window_height) is Some ==> 0 <= landing(
            items,
            current,
            command,
            window_height,
        ).unwrap() < items.len(),
        landing(items, current, command, window_height) is Some && command != MoveSelection::Top
            && !toggles(items, current, command) ==> visible_at(
            items,
            landing(items, current, command, window_height).unwrap(),
        ),
{
    let n = items.len() as int;
    let page = page_size(window_height);
    lemma_visible_down(items, 0, current);
    lemma_visible_down(items, 0, current + 1);
    lemma_visible_down(items, 0, n);
    lemma_visible_up(items, current, n);
    lemma_visible_up(items, current + 1, n);
    lemma_pick_member(visible_down(items, 0, current), 1);
    lemma_pick_member(visible_up(items, current + 1, n), 1);
    lemma_pick_member(visible_down(items, 0, n), 1);
    lemma_pick_member(visible_down(items, 0, current + 1), page);
    lemma_pick_member(visible_down(items, 0, current + 1), page / 2);
    lemma_pick_member(visible_up(items, current, n), page);
    lemma_pick_member(visible_up(items, current, n), page / 2);
    lemma_visible_shallower(items, items[current].indent, current - 1);
}

} // verus!
