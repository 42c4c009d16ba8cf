//! The navigation engine: a store, a selection, and the commands that move it.

use crate::error::Error;
use crate::filetreeitems::FileTreeItems;
use crate::flatten::{first_fault, tree_of};
use crate::item::{ItemView, TreeItemInfo};
use crate::layout::consistent;
use crate::navigation::{
    cache_of, find_path, landing, lemma_landing_in_range, lemma_visual_of, list_after,
    MoveSelection, page_size, position, row_to_absolute, visible_parent, visible_shallower,
    visual_of, VisualSelection,
};
use crate::paths::{text_eq, text_set, texts};
use crate::toggle::toggled;
use crate::unfold::revealed;
use crate::visible::{
    lemma_visible_down_split, lemma_visible_up_split, pick, visible_at, visible_down, visible_up,
    visible_window,
};
use vstd::prelude::*;

verus! {

/// The direction of a walk over absolute indices.
#[derive(Clone, Copy, PartialEq, Eq, Structural)]
enum Direction {
    Up,
    Down,
}

/// The mathematical content of a [`FileTree`].
pub struct TreeView {
    /// The nodes, in display order.
    pub items: Seq<ItemView>,
    /// The absolute index of the selected node.
    pub selection: Option<usize>,
    /// The visual position as last computed.
    pub visual_selection: Option<VisualSelection>,
    /// How many rows are drawn at present, if known.
    pub window_height: Option<usize>,
}

/// What holds of every tree: the list is consistent; a node is selected
/// exactly if the list is not empty, and the selection points into the
/// list; a visual position is kept exactly while there is a selection, with
/// its index below its count.
pub open spec fn coherent(tree: TreeView) -> bool {
    &&& consistent(tree.items)
    &&& tree.selection is Some <==> tree.items.len() > 0
    &&& tree.selection is Some ==> tree.selection.unwrap() < tree.items.len()
    &&& tree.visual_selection is Some <==> tree.selection is Some
    &&& tree.visual_selection is Some ==> tree.visual_selection.unwrap().index
        < tree.visual_selection.unwrap().count
}

/// Whether a command resolves to a node: never without a selection.
pub open spec fn resolves(tree: TreeView, command: MoveSelection) -> bool {
    tree.selection is Some && landing(
        tree.items,
        tree.selection.unwrap() as int,
        command,
        tree.window_height,
    ) is Some
}

/// Whether a command resolves to a node other than the selected one.
pub open spec fn moves(tree: TreeView, command: MoveSelection) -> bool {
    resolves(tree, command) && landing(
        tree.items,
        tree.selection.unwrap() as int,
        command,
        tree.window_height,
    ) != Some(tree.selection.unwrap() as int)
}

/// The tree after a command. Without a selection, or where the command does
/// not resolve, nothing changes. Else the list is as the command leaves it
/// and the selection is where the command lands; the visual position is
/// computed anew if the selection changed, and kept as it was if not.
pub open spec fn tree_after(tree: TreeView, command: MoveSelection) -> TreeView {
    if !resolves(tree, command) {
        tree
    } else {
        let current = tree.selection.unwrap();
        let target = landing(tree.items, current as int, command, tree.window_height).unwrap() as usize;
        let items = list_after(tree.items, current as int, command);
        TreeView {
            items,
            selection: Some(target),
            visual_selection: if target == current {
                tree.visual_selection
            } else {
                Some(visual_of(items, target as int))
            },
            window_height: tree.window_height,
        }
    }
}

/// Whether selecting by this path changes the selection: a node has the
/// path, and the first such node is not the selected one.
pub open spec fn selects_anew(tree: TreeView, path: Seq<char>) -> bool {
    let found = find_path(tree.items, path, 0);
    found is Some && found != position(tree.selection)
}

/// The tree after the first node with this path was selected. If no node
/// has the path, or if that node is selected already, nothing changes. Else
/// the node is selected and brought into view, and the visual position is
/// computed anew.
pub open spec fn tree_selecting(tree: TreeView, path: Seq<char>) -> TreeView {
    if selects_anew(tree, path) {
        let index = find_path(tree.items, path, 0).unwrap();
        let items = revealed(tree.items, index);
        TreeView {
            items,
            selection: Some(index as usize),
            visual_selection: Some(visual_of(items, index)),
            window_height: tree.window_height,
        }
    } else {
        tree
    }
}

/// The absolute indices of the rows to draw: at most `max` visible nodes,
/// beginning with the one in row `start_visual`, or with the first node if
/// there is no such row.
pub open spec fn rows_from(items: Seq<ItemView>, start_visual: int, max: nat) -> Seq<int> {
    let start = match row_to_absolute(items, start_visual) {
        Some(absolute) => absolute,
        None => 0,
    };
    visible_window(items, start, max)
}

/// A flattened file tree with a selection that navigation commands move.
#[derive(Debug)]
pub struct FileTree {
    items: FileTreeItems,
    selection: Option<usize>,
    visual_selection: Option<VisualSelection>,
    window_height: Option<usize>,
}

impl View for FileTree {
    type V = TreeView;

    closed spec fn view(&self) -> TreeView {
        TreeView {
            items: self.items@,
            selection: self.selection,
            visual_selection: self.visual_selection,
            window_height: self.window_height,
        }
    }
}

impl FileTree {
    /// The invariant of the tree.
    pub closed spec fn wf(&self) -> bool {
        &&& self.items.wf()
        &&& coherent(self@)
    }

    /// How many files the tree was built from.
    pub closed spec fn spec_file_count(&self) -> nat {
        self.items.spec_file_count()
    }

    /// What the invariant says of the view.
    pub proof fn lemma_wf(&self)
        requires
            self.wf(),
        ensures
            coherent(self@),
            self.spec_file_count() <= self@.items.len(),
    {
        self.items.lemma_wf();
    }

    /// Builds the tree of the paths, in the order given, with the
    /// directories named in `collapsed` collapsed. The first node is
    /// selected, if there is one. Fails on the first path that is not valid.
    pub fn new(list: &[&str], collapsed: &[&str]) -> (built: Result<Self, Error>)
        ensures
            built is Ok <==> first_fault(texts(list@)) is None,
            built is Err ==> first_fault(texts(list@)) == Some(built->Err_0),
            built is Ok ==> {
                let tree = built->Ok_0;
                &&& tree.wf()
                &&& tree.spec_file_count() == list@.len()
                &&& tree@.items == tree_of(texts(list@), text_set(collapsed@))
                &&& tree@.selection == if list@.len() == 0 {
                    None
                } else {
                    Some(0usize)
                }
                &&& tree@.visual_selection == cache_of(tree@.items, tree@.selection)
                &&& tree@.window_height is None
            },
    {
        match FileTreeItems::new(list, collapsed) {
            Ok(items) => {
                proof {
                    items.lemma_wf();
                }
                let mut tree = Self {
                    items,
                    selection: if list.len() == 0 {
                        None
                    } else {
                        Some(0)
                    },
                    visual_selection: None,
                    window_height: None,
                };
                tree.visual_selection = tree.calc_visual_selection();
                Ok(tree)
            },
            Err(e) => Err(e),
        }
    }

    /// Whether the tree holds no file. Directories alone do not count; but
    /// a tree without a file has no directory either.
    pub fn is_empty(&self) -> (empty: bool)
        ensures
            empty == (self.spec_file_count() == 0),
            self.wf() ==> empty == (self@.items.len() == 0),
            self.wf() ==> empty == (self@.selection is None),
    {
        proof {
            if self.wf() {
                self.items.lemma_wf();
            }
        }
        self.items.file_count() == 0
    }

    /// The absolute index of the selected node.
    pub fn selection(&self) -> (selection: Option<usize>)
        ensures
            selection == self@.selection,
            self.wf() ==> (selection is Some <==> self@.items.len() > 0),
            self.wf() && selection is Some ==> selection.unwrap() < self@.items.len(),
    {
        self.selection
    }

    /// The visual position of the selection, as last computed.
    pub fn visual_selection(&self) -> (visual: Option<&VisualSelection>)
        ensures
            visual is Some <==> self@.visual_selection is Some,
            visual is Some ==> *visual.unwrap() == self@.visual_selection.unwrap(),
            self.wf() ==> (visual is Some <==> self@.selection is Some),
            self.wf() && visual is Some ==> visual.unwrap().index < visual.unwrap().count,
    {
        self.visual_selection.as_ref()
    }

    /// How many rows the view draws at present, if it was told.
    pub fn window_height(&self) -> (height: Option<usize>)
        ensures
            height == self@.window_height,
    {
        self.window_height
    }

    /// Tells the tree how many rows the view draws. Page jumps are sized by it.
    pub fn set_window_height(&mut self, height: Option<usize>)
        ensures
            final(self)@ == (TreeView { window_height: height, ..old(self)@ }),
            final(self).wf() == old(self).wf(),
            final(self).spec_file_count() == old(self).spec_file_count(),
    {
        self.window_height = height;
    }

    /// The store behind the tree, to read the nodes.
    pub fn items(&self) -> (items: &FileTreeItems)
        ensures
            items@ == self@.items,
            self.wf() ==> items.wf(),
    {
        &self.items
    }

    /// The selected node, if it is a file.
    pub fn selected_file(&self) -> (file: Option<&TreeItemInfo>)
        requires
            self.wf(),
        ensures
            file is Some <==> (self@.selection is Some && !self@.items[self@.selection.unwrap() as int].is_dir),
            file is Some ==> {
                let item = self@.items[self@.selection.unwrap() as int];
                &&& file.unwrap().spec_path() == item.path
                &&& file.unwrap().spec_indent() == item.indent
                &&& file.unwrap().spec_visible() == item.visible
            },
    {
        match self.selection {
            Some(index) => match self.items.get(index) {
                Some(item) => if item.kind().is_path() {
                    None
                } else {
                    Some(item.info())
                },
                None => None,
            },
            None => None,
        }
    }

    /// Whether `index` is the absolute index of a visible node.
    fn is_visible_index(&self, index: usize) -> (visible: bool)
        ensures
            visible == visible_at(self.items@, index as int),
    {
        self.items.is_visible_at(index)
    }

    /// The absolute index of the node drawn in row `visual_index`.
    fn visual_index_to_absolute(&self, visual_index: usize) -> (absolute: Option<usize>)
        ensures
            position(absolute) == row_to_absolute(self.items@, visual_index as int),
    {
        let n: usize = self.items.len();
        let mut seen: usize = 0;
        let mut i: usize = 0;
        while i < n
            invariant
                i <= n == self.items@.len(),
                seen == visible_up(self.items@, 0, i as int).len(),
                seen <= visual_index,
                seen <= i,
            decreases n - i,
        {
            if self.is_visible_index(i) {
                if seen == visual_index {
                    proof {
                        lemma_visible_up_split(self.items@, 0, i as int + 1, n as int);
                    }
                    return Some(i);
                }
                seen = seen + 1;
            }
            i = i + 1;
        }
        None
    }

    /// The visual position of the selection, computed anew.
    fn calc_visual_selection(&self) -> (visual: Option<VisualSelection>)
        requires
            consistent(self.items@),
            self.selection is Some ==> self.selection.unwrap() < self.items@.len(),
        ensures
            visual == cache_of(self.items@, self.selection),
            visual is Some ==> visual.unwrap().index < visual.unwrap().count,
    {
        match self.selection {
            None => None,
            Some(selected) => {
                let n: usize = self.items.len();
                let mut count: usize = 0;
                let mut index: usize = 0;
                let mut i: usize = 0;
                while i < n
                    invariant
                        i <= n == self.items@.len(),
                        selected < n,
                        count == visible_up(self.items@, 0, i as int).len(),
                        count <= i,
                        index == if selected < i {
                            visual_of(self.items@, selected as int).index
                        } else {
                            0
                        },
                    decreases n - i,
                {
                    if self.is_visible_index(i) {
                        if i == selected {
                            index = count;
                        }
                        count = count + 1;
                    }
                    i = i + 1;
                }
                proof {
                    lemma_visual_of(self.items@, selected as int);
                }
                Some(VisualSelection { count, index })
            },
        }
    }

    /// Walks the absolute indices in `lo..hi`, upward from `lo` or downward
    /// from `hi`, and lands on the last of the first `take` visible ones.
    fn get_new_selection(
        &self,
        lo: usize,
        hi: usize,
        direction: Direction,
        take: usize,
    ) -> (found: Option<usize>)
        requires
            hi <= self.items@.len(),
        ensures
            position(found) == match direction {
                Direction::Down => pick(visible_up(self.items@, lo as int, hi as int), take as nat),
                Direction::Up => pick(visible_down(self.items@, lo as int, hi as int), take as nat),
            },
    {
        let mut found: Option<usize> = None;
        let mut taken: usize = 0;
        match direction {
            Direction::Down => {
                let mut i: usize = lo;
                while i < hi && taken < take
                    invariant
                        lo <= i,
                        i <= hi || i == lo,
                        hi <= self.items@.len(),
                        taken <= take,
                        taken == visible_up(self.items@, lo as int, i as int).len(),
                        taken == 0 ==> found is None,
                        taken > 0 ==> position(found) == Some(
                            visible_up(self.items@, lo as int, i as int).last(),
                        ),
                    decreases hi - i,
                {
                    if self.is_visible_index(i) {
                        found = Some(i);
                        taken = taken + 1;
                    }
                    i = i + 1;
                }
                proof {
                    if i <= hi {
                        lemma_visible_up_split(self.items@, lo as int, i as int, hi as int);
                    }
                }
            },
            Direction::Up => {
                let mut i: usize = hi;
                while i > lo && taken < take
                    invariant
                        i <= hi,
                        lo <= i || i == hi,
                        hi <= self.items@.len(),
                        taken <= take,
                        taken == visible_down(self.items@, i as int, hi as int).len(),
                        taken == 0 ==> found is None,
                        taken > 0 ==> position(found) == Some(
                            visible_down(self.items@, i as int, hi as int).last(),
                        ),
                    decreases i,
                {
                    i = i - 1;
                    if self.is_visible_index(i) {
                        found = Some(i);
                        taken = taken + 1;
                    }
                }
                proof {
                    if lo <= i {
                        lemma_visible_down_split(self.items@, lo as int, i as int, hi as int);
                    }
                }
            },
        }
        found
    }

    /// The page size that goes with the window height.
    fn page(&self) -> (size: usize)
        ensures
            size == page_size(self.window_height),
    {
        match self.window_height {
            Some(height) => height,
            None => 0,
        }
    }

    /// The last visible node of all.
    fn selection_end(&self) -> (found: Option<usize>)
        ensures
            position(found) == pick(visible_down(self.items@, 0, self.items@.len() as int), 1),
    {
        self.get_new_selection(0, self.items.len(), Direction::Up, 1)
    }

    /// The nearest visible node before `current`, or after it.
    fn selection_updown(&self, current_index: usize, direction: Direction) -> (found: Option<usize>)
        requires
            current_index < self.items@.len(),
        ensures
            position(found) == match direction {
                Direction::Up => pick(visible_down(self.items@, 0, current_index as int), 1),
                Direction::Down => pick(
                    visible_up(self.items@, current_index as int + 1, self.items@.len() as int),
                    1,
                ),
            },
    {
        let n: usize = self.items.len();
        match direction {
            Direction::Up => self.get_new_selection(0, current_index, Direction::Up, 1),
            Direction::Down => self.get_new_selection(current_index + 1, n, Direction::Down, 1),
        }
    }

    /// A page away from `current`, counting `current` itself as the first step.
    fn selection_page_updown(
        &self,
        current_index: usize,
        direction: Direction,
    ) -> (found: Option<usize>)
        requires
            current_index < self.items@.len(),
        ensures
            position(found) == match direction {
                Direction::Up => pick(
                    visible_down(self.items@, 0, current_index as int + 1),
                    page_size(self.window_height),
                ),
                Direction::Down => pick(
                    visible_up(self.items@, current_index as int, self.items@.len() as int),
                    page_size(self.window_height),
                ),
            },
    {
        let page_size: usize = self.page();
        let n: usize = self.items.len();
        match direction {
            Direction::Up => self.get_new_selection(0, current_index + 1, Direction::Up, page_size),
            Direction::Down => self.get_new_selection(current_index, n, Direction::Down, page_size),
        }
    }

    /// Half a page away from `current`, counting `current` itself as the first step.
    fn selection_half_page_updown(
        &self,
        current_index: usize,
        direction: Direction,
    ) -> (found: Option<usize>)
        requires
            current_index < self.items@.len(),
        ensures
            position(found) == match direction {
                Direction::Up => pick(
                    visible_down(self.items@, 0, current_index as int + 1),
                    page_size(self.window_height) / 2,
                ),
                Direction::Down => pick(
                    visible_up(self.items@, current_index as int, self.items@.len() as int),
                    page_size(self.window_height) / 2,
                ),
            },
    {
        let page_size: usize = self.page() / 2;
        let n: usize = self.items.len();
        match direction {
            Direction::Up => self.get_new_selection(0, current_index + 1, Direction::Up, page_size),
            Direction::Down => self.get_new_selection(current_index, n, Direction::Down, page_size),
        }
    }

    /// The nearest visible node before `current` that is indented less.
    fn select_parent(&self, current_index: usize) -> (found: Option<usize>)
        requires
            current_index < self.items@.len(),
        ensures
            position(found) == visible_parent(self.items@, current_index as int),
    {
        let current_indent: u8 = match self.items.get(current_index) {
            Some(item) => item.info().indent(),
            None => 0,
        };
        let mut i: usize = current_index;
        while i > 0
            invariant
                i <= current_index < self.items@.len(),
                current_indent == self.items@[current_index as int].indent,
                visible_parent(self.items@, current_index as int) == visible_shallower(
                    self.items@,
                    current_indent as nat,
                    i as int - 1,
                ),
            decreases i,
        {
            i = i - 1;
            match self.items.get(i) {
                Some(item) => {
                    if item.info().is_visible() && item.info().indent() < current_indent {
                        return Some(i);
                    }
                },
                None => {},
            }
        }
        None
    }

    /// `Left`: collapses an expanded directory in place; from any other node
    /// goes to the nearest visible node above that is indented less.
    fn selection_left(&mut self, current_index: usize) -> (found: Option<usize>)
        requires
            old(self).items.wf(),
            current_index < old(self).items@.len(),
        ensures
            final(self).items.wf(),
            final(self).items.spec_file_count() == old(self).items.spec_file_count(),
            final(self).selection == old(self).selection,
            final(self).visual_selection == old(self).visual_selection,
            final(self).window_height == old(self).window_height,
            final(self).items@ == list_after(old(self).items@, current_index as int, MoveSelection::Left),
            position(found) == landing(
                old(self).items@,
                current_index as int,
                MoveSelection::Left,
                old(self).window_height,
            ),
    {
        let expanded = match self.items.get(current_index) {
            Some(item) => item.kind().is_path() && !item.kind().is_path_collapsed(),
            None => false,
        };
        if expanded {
            self.items.collapse(current_index, false);
            return Some(current_index);
        }
        self.select_parent(current_index)
    }

    /// `Right`: expands a collapsed directory in place; from an expanded one
    /// goes to the next visible node; from a file goes nowhere.
    fn selection_right(&mut self, current_selection: usize) -> (found: Option<usize>)
        requires
            old(self).items.wf(),
            current_selection < old(self).items@.len(),
        ensures
            final(self).items.wf(),
            final(self).items.spec_file_count() == old(self).items.spec_file_count(),
            final(self).selection == old(self).selection,
            final(self).visual_selection == old(self).visual_selection,
            final(self).window_height == old(self).window_height,
            final(self).items@ == list_after(
                old(self).items@,
                current_selection as int,
                MoveSelection::Right,
            ),
            position(found) == landing(
                old(self).items@,
                current_selection as int,
                MoveSelection::Right,
                old(self).window_height,
            ),
    {
        let (is_path, is_collapsed) = match self.items.get(current_selection) {
            Some(item) => (item.kind().is_path(), item.kind().is_path_collapsed()),
            None => (false, false),
        };
        if is_path {
            if is_collapsed {
                self.items.expand(current_selection, false);
                return Some(current_selection);
            }
            return self.selection_updown(current_selection, Direction::Down);
        }
        None
    }

    /// Carries out a navigation command.
    ///
    /// Returns whether the command resolved to a node, be it the one that
    /// was selected already: `Left` and `Right` on a directory that they
    /// toggle resolve to that directory. Whether the selection changed is
    /// a second matter, and shows in [`FileTree::selection`]. The visual
    /// position is computed anew exactly if the selection changed. Without
    /// a selection nothing happens.
    pub fn move_selection(&mut self, dir: MoveSelection) -> (moved: bool)
        requires
            old(self).wf(),
        ensures
            final(self).wf(),
            final(self).spec_file_count() == old(self).spec_file_count(),
            moved == resolves(old(self)@, dir),
            (final(self)@.selection != old(self)@.selection) == moves(old(self)@, dir),
            final(self)@ == tree_after(old(self)@, dir),
    {
        match self.selection {
            None => false,
            Some(selection) => {
                proof {
                    self.items.lemma_wf();
                    lemma_landing_in_range(self.items@, selection as int, dir, self.window_height);
                }
                let new_index: Option<usize> = match dir {
                    MoveSelection::Up => self.selection_updown(selection, Direction::Up),
                    MoveSelection::Down => self.selection_updown(selection, Direction::Down),
                    MoveSelection::Left => self.selection_left(selection),
                    MoveSelection::Right => self.selection_right(selection),
                    MoveSelection::Top => Some(0),
                    MoveSelection::End => self.selection_end(),
                    MoveSelection::PageUp => self.selection_page_updown(selection, Direction::Up),
                    MoveSelection::PageDown => self.selection_page_updown(selection, Direction::Down),
                    MoveSelection::HalfPageUp => self.selection_half_page_updown(
                        selection,
                        Direction::Up,
                    ),
                    MoveSelection::HalfPageDown => self.selection_half_page_updown(
                        selection,
                        Direction::Down,
                    ),
                };
                proof {
                    self.items.lemma_wf();
                }
                match new_index {
                    Some(index) => {
                        if index != selection {
                            self.selection = new_index;
                            self.visual_selection = self.calc_visual_selection();
                        }
                        true
                    },
                    None => false,
                }
            },
        }
    }

    /// The first node with this path.
    fn find_index(&self, path: &str) -> (found: Option<usize>)
        ensures
            position(found) == find_path(self.items@, path@, 0),
            found is Some ==> found.unwrap() < self.items@.len(),
    {
        let n: usize = self.items.len();
        let mut i: usize = 0;
        while i < n
            invariant
                i <= n == self.items@.len(),
                find_path(self.items@, path@, 0) == find_path(self.items@, path@, i as int),
            decreases n - i,
        {
            match self.items.get(i) {
                Some(item) => {
                    if text_eq(item.info().full_path(), path) {
                        return Some(i);
                    }
                },
                None => {},
            }
            i = i + 1;
        }
        None
    }

    /// Selects the first node with this path and brings it into view.
    ///
    /// Returns whether the selection changed. If it did not, because no node
    /// has the path or because that node is selected already, nothing else
    /// changed either.
    pub fn select_file(&mut self, path: &str) -> (changed: bool)
        requires
            old(self).wf(),
        ensures
            final(self).wf(),
            final(self).spec_file_count() == old(self).spec_file_count(),
            changed == selects_anew(old(self)@, path@),
            final(self)@ == tree_selecting(old(self)@, path@),
    {
        match self.find_index(path) {
            None => false,
            Some(index) => {
                let same = match self.selection {
                    Some(selection) => selection == index,
                    None => false,
                };
                if same {
                    return false;
                }
                self.selection = Some(index);
                self.items.show_element(index);
                proof {
                    self.items.lemma_wf();
                }
                self.visual_selection = self.calc_visual_selection();
                true
            },
        }
    }

    /// Collapses every directory but the first node, which is left expanded
    /// one level. An empty tree is left as it is.
    pub fn collapse_but_root(&mut self)
        requires
            old(self).wf(),
        ensures
            final(self).wf(),
            final(self).spec_file_count() == old(self).spec_file_count(),
            final(self)@ == (TreeView {
                items: if old(self).spec_file_count() == 0 {
                    old(self)@.items
                } else {
                    toggled(toggled(old(self)@.items, 0, true, true), 0, false, false)
                },
                ..old(self)@
            }),
    {
        if !self.is_empty() {
            proof {
                self.items.lemma_wf();
            }
            self.items.collapse(0, true);
            self.items.expand(0, false);
            proof {
                self.items.lemma_wf();
            }
        }
    }

    /// Collapses the selected directory and every directory below it.
    pub fn collapse_recursive(&mut self)
        requires
            old(self).wf(),
        ensures
            final(self).wf(),
            final(self).spec_file_count() == old(self).spec_file_count(),
            final(self)@ == (TreeView {
                items: match old(self)@.selection {
                    Some(selection) => toggled(old(self)@.items, selection as int, true, true),
                    None => old(self)@.items,
                },
                ..old(self)@
            }),
    {
        match self.selection {
            Some(selection) => {
                self.items.collapse(selection, true);
                proof {
                    self.items.lemma_wf();
                }
            },
            None => {},
        }
    }

    /// Expands the selected directory and every directory below it.
    pub fn expand_recursive(&mut self)
        requires
            old(self).wf(),
        ensures
            final(self).wf(),
            final(self).spec_file_count() == old(self).spec_file_count(),
            final(self)@ == (TreeView {
                items: match old(self)@.selection {
                    Some(selection) => toggled(old(self)@.items, selection as int, false, true),
                    None => old(self)@.items,
                },
                ..old(self)@
            }),
    {
        match self.selection {
            Some(selection) => {
                self.items.expand(selection, true);
                proof {
                    self.items.lemma_wf();
                }
            },
            None => {},
        }
    }

    /// The rows to draw: at most `max_amount` visible nodes, beginning with
    /// the one in row `start_index_visual`, or with the first node if there
    /// is no such row. Each comes as its absolute index and whether it is
    /// the selected node.
    pub fn iterate(
        &self,
        start_index_visual: usize,
        max_amount: usize,
    ) -> (rows: Vec<(usize, bool)>)
        ensures
            rows@.map_values(|row: (usize, bool)| row.0 as int) == rows_from(
                self@.items,
                start_index_visual as int,
                max_amount as nat,
            ),
            forall|j: int|
                0 <= j < rows@.len() ==> (#[trigger] rows@[j]).1 == (self@.selection == Some(rows@[j].0)),
    {
        let start: usize = match self.visual_index_to_absolute(start_index_visual) {
            Some(absolute) => absolute,
            None => 0,
        };
        let found: Vec<usize> = self.items.iterate(start, max_amount);
        let mut rows: Vec<(usize, bool)> = Vec::new();
        let mut j: usize = 0;
        while j < found.len()
            invariant
                j <= found@.len(),
                rows@.len() == j,
                forall|k: int| 0 <= k < j ==> (#[trigger] rows@[k]).0 == found@[k],
                forall|k: int| 0 <= k < j ==> (#[trigger] rows@[k]).1 == (self.selection == Some(rows@[k].0)),
            decreases found@.len() - j,
        {
            let index: usize = found[j];
            let selected = match self.selection {
                Some(selection) => selection == index,
                None => false,
            };
            rows.push((index, selected));
            j = j + 1;
        }
        assert(rows@.map_values(|row: (usize, bool)| row.0 as int) =~= found@.map_values(
            |i: usize| i as int,
        ));
        rows
    }
}

impl Default for FileTree {
    /// The empty tree: no node, no selection.
    fn default() -> (tree: Self)
        ensures
            tree.wf(),
            tree.spec_file_count() == 0,
            tree@ == (TreeView {
                items: Seq::empty(),
                selection: None,
                visual_selection: None,
                window_height: None,
            }),
    {
        Self {
            items: FileTreeItems::default(),
            selection: None,
            visual_selection: None,
            window_height: None,
        }
    }
}

} // verus!
