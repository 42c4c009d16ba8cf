//! The store: the flattened tree, with the collapse state of its directories.

use crate::cover::{
    covered, lemma_cover_of_visible, lemma_refresh_begins, lemma_refresh_ends, lemma_refresh_step,
    refreshed,
};
use crate::error::Error;
use crate::flatten::{
    dir_paths, first_fault, flat, lemma_dir_paths_push, lemma_first_fault_stays, lemma_flat_files,
    lemma_flat_only_dirs_collapsed, tree_of, with_dirs, with_path,
};
use crate::item::{FileTreeItem, ItemView};
use crate::layout::{
    consistent, file_total, lemma_files_below_bound, lemma_nearest_shallower,
    lemma_same_shape_files, lemma_same_shape_parent, lemma_settle_unique, nearest_shallower,
    only_dirs_collapsed, parent, same_tree, settled_below, subtree_end, subtree_end_from,
    unchanged_outside,
};
use crate::paths::{
    check_path, lemma_separators_monotonic, SEPARATOR, separators, text_set, text_set_of, texts,
    valid,
};
use crate::toggle::{
    lemma_hidden_subtree_stays, lemma_toggle_keeps_prefix, lemma_toggle_progress_done,
    lemma_toggle_settles, toggle_flags, toggle_progress, toggled,
};
use crate::unfold::{
    lemma_reveal_done, lemma_reveal_settles, lemma_reveal_step, on_chain, reveal_progress, revealed,
};
use crate::visible::{
    lemma_visible_up, lemma_visible_up_split, visible_at, visible_up, visible_window,
};
use vstd::hash_set::StringHashSet;
use vstd::prelude::*;

verus! {

/// The nodes of a tree in display order, each at a fixed absolute index.
///
/// Collapsing and expanding change flags, never positions.
#[derive(Debug)]
pub struct FileTreeItems {
    tree_items: Vec<FileTreeItem>,
    files: usize,
}

impl View for FileTreeItems {
    type V = Seq<ItemView>;

    closed spec fn view(&self) -> Seq<ItemView> {
        self.tree_items@.map_values(|item: FileTreeItem| item@)
    }
}

impl FileTreeItems {
    /// The invariant of the store: the visibility flags follow from the
    /// collapse flags, and the file count is that of the list.
    pub closed spec fn wf(&self) -> bool {
        &&& consistent(self@)
        &&& self.files == file_total(self@)
        &&& self.files == 0 <==> self@.len() == 0
    }

    /// How many files the store was built from, as recorded.
    pub closed spec fn spec_file_count(&self) -> nat {
        self.files as nat
    }

    /// What the invariant says of the view: the flags are consistent, and
    /// the recorded count is the number of file nodes.
    pub proof fn lemma_wf(&self)
        requires
            self.wf(),
        ensures
            consistent(self@),
            self.spec_file_count() == file_total(self@),
            self.spec_file_count() <= self@.len(),
            self.spec_file_count() == 0 <==> self@.len() == 0,
    {
        lemma_files_below_bound(self@, self@.len() as int);
    }

    /// How many nodes the list holds, files and directories.
    pub fn len(&self) -> (n: usize)
        ensures
            n == self@.len(),
    {
        self.tree_items.len()
    }

    /// How many files the list holds.
    pub fn file_count(&self) -> (n: usize)
        ensures
            n == self.spec_file_count(),
    {
        self.files
    }

    /// The node at an absolute index, if there is one.
    pub fn get(&self, index: usize) -> (item: Option<&FileTreeItem>)
        ensures
            item is Some <==> index < self@.len(),
            item is Some ==> item.unwrap()@ == self@[index as int],
    {
        if index < self.tree_items.len() {
            Some(&self.tree_items[index])
        } else {
            None
        }
    }

    /// The parent of a node: the nearest node before it that is indented less.
    fn find_parent(&self, index: usize) -> (found: Option<usize>)
        requires
            index < self@.len(),
        ensures
            found is None <==> parent(self@, index as int) < 0,
            found is Some ==> found.unwrap() == parent(self@, index as int),
            found is Some ==> found.unwrap() < index,
    {
        let indent: u8 = self.tree_items[index].info().indent();
        let mut j: usize = index;
        proof {
            lemma_nearest_shallower(self@, indent as nat, index as int - 1);
        }
        while j > 0
            invariant
                j <= index < self@.len(),
                indent == self@[index as int].indent,
                parent(self@, index as int) == nearest_shallower(self@, indent as nat, j as int - 1),
                -1 <= parent(self@, index as int) < index,
            decreases j,
        {
            j = j - 1;
            if self.tree_items[j].info().indent() < indent {
                return Some(j);
            }
        }
        None
    }

    /// Sets the visibility flag of one node.
    fn set_visible_at(&mut self, index: usize, visible: bool)
        requires
            index < old(self)@.len(),
        ensures
            final(self)@ == old(self)@.update(
                index as int,
                (ItemView { visible, ..old(self)@[index as int] }),
            ),
            final(self).spec_file_count() == old(self).spec_file_count(),
    {
        self.tree_items[index].set_visible(visible);
        assert(self@ =~= old(self)@.update(
            index as int,
            (ItemView { visible, ..old(self)@[index as int] }),
        ));
    }

    /// Marks one node collapsed or expanded, if it is a directory.
    fn set_collapsed_at(&mut self, index: usize, collapsed: bool)
        requires
            index < old(self)@.len(),
        ensures
            final(self)@ == old(self)@.update(
                index as int,
                (ItemView {
                    collapsed: old(self)@[index as int].is_dir && collapsed,
                    ..old(self)@[index as int]
                }),
            ),
            final(self).spec_file_count() == old(self).spec_file_count(),
    {
        self.tree_items[index].set_collapsed(collapsed);
        assert(self@ =~= old(self)@.update(
            index as int,
            (ItemView {
                collapsed: old(self)@[index as int].is_dir && collapsed,
                ..old(self)@[index as int]
            }),
        ));
    }

    /// Sets the visibility flags of the nodes in `from..to` to what the
    /// collapse flags say, given that the flags before `from` are right and
    /// what covers the node before `from`.
    fn refresh_visibility(&mut self, from: usize, to: usize, cover: Option<u8>)
        requires
            from <= to <= old(self)@.len(),
            settled_below(old(self)@, from as int),
            covered(old(self)@, from as int - 1, cover),
        ensures
            same_tree(old(self)@, final(self)@),
            final(self).spec_file_count() == old(self).spec_file_count(),
            settled_below(final(self)@, to as int),
            unchanged_outside(old(self)@, final(self)@, from as int, to as int),
    {
        let mut cover: Option<u8> = cover;
        let mut i: usize = from;
        proof {
            lemma_refresh_begins(self@, from as int, cover);
        }
        while i < to
            invariant
                from <= i <= to <= self@.len(),
                self.spec_file_count() == old(self).spec_file_count(),
                refreshed(old(self)@, self@, from as int, i as int, cover),
            decreases to - i,
        {
            let (indent, is_collapsed) = match self.get(i) {
                Some(item) => (item.info().indent(), item.kind().is_path_collapsed()),
                None => (0, false),
            };
            let hidden = match cover {
                Some(c) => indent > c,
                None => false,
            };
            proof {
                lemma_refresh_step(old(self)@, self@, from as int, i as int, cover);
            }
            self.set_visible_at(i, !hidden);
            if !hidden {
                cover = if is_collapsed {
                    Some(indent)
                } else {
                    None
                };
            }
            i = i + 1;
        }
        proof {
            lemma_refresh_ends(old(self)@, self@, from as int, to as int, cover);
        }
    }

    /// Whether `index` is in the list and indented deeper than `indent`.
    fn deeper_at(&self, index: usize, indent: u8) -> (deeper: bool)
        ensures
            deeper == (index < self@.len() && self@[index as int].indent > indent),
    {
        index < self.tree_items.len() && self.tree_items[index].info().indent() > indent
    }

    /// Sets the collapse flag of directory `index`, and with `recursive` of
    /// every directory below it. Returns where the subtree ends.
    fn mark_subtree(&mut self, index: usize, collapsed: bool, recursive: bool) -> (end: usize)
        requires
            index < old(self)@.len(),
        ensures
            end == subtree_end(old(self)@, index as int),
            index < end <= old(self)@.len(),
            final(self)@ == toggle_flags(old(self)@, index as int, collapsed, recursive),
            final(self).spec_file_count() == old(self).spec_file_count(),
    {
        let n: usize = self.len();
        let indent: u8 = self.tree_items[index].info().indent();
        self.set_collapsed_at(index, collapsed);
        assert(self@ =~= toggle_progress(old(self)@, index as int, collapsed, recursive, index as int + 1));
        let mut i: usize = index + 1;
        while self.deeper_at(i, indent)
            invariant
                index < i <= n,
                n == old(self)@.len(),
                indent == old(self)@[index as int].indent,
                self@ == toggle_progress(old(self)@, index as int, collapsed, recursive, i as int),
                subtree_end_from(old(self)@, index as int, i as int) == subtree_end(
                    old(self)@,
                    index as int,
                ),
                self.spec_file_count() == old(self).spec_file_count(),
            decreases n - i,
        {
            if recursive {
                self.set_collapsed_at(i, collapsed);
            }
            assert(self@ =~= toggle_progress(
                old(self)@,
                index as int,
                collapsed,
                recursive,
                i as int + 1,
            ));
            i = i + 1;
        }
        proof {
            lemma_toggle_progress_done(old(self)@, index as int, collapsed, recursive);
        }
        i
    }

    /// Collapses or expands the node at `index` and brings visibility in line.
    fn toggle(&mut self, index: usize, collapsed: bool, recursive: bool)
        requires
            old(self).wf(),
            index < old(self)@.len(),
        ensures
            final(self).wf(),
            final(self)@ == toggled(old(self)@, index as int, collapsed, recursive),
            final(self).spec_file_count() == old(self).spec_file_count(),
    {
        let is_dir = match self.get(index) {
            Some(item) => item.kind().is_path(),
            None => false,
        };
        if is_dir {
            let end = self.mark_subtree(index, collapsed, recursive);
            proof {
                lemma_toggle_keeps_prefix(old(self)@, index as int, collapsed, recursive);
            }
            let (visible, indent, is_collapsed) = match self.get(index) {
                Some(item) => (
                    item.info().is_visible(),
                    item.info().indent(),
                    item.kind().is_path_collapsed(),
                ),
                None => (false, 0, false),
            };
            if visible {
                proof {
                    lemma_cover_of_visible(self@, index as int);
                }
                let cover: Option<u8> = if is_collapsed {
                    Some(indent)
                } else {
                    None
                };
                self.refresh_visibility(index + 1, end, cover);
            } else {
                proof {
                    lemma_hidden_subtree_stays(old(self)@, index as int, collapsed, recursive);
                }
            }
            proof {
                lemma_toggle_settles(old(self)@, index as int, collapsed, recursive, self@);
                lemma_same_shape_files(old(self)@, self@, self@.len() as int);
            }
        }
    }

    /// Collapses the directory at `index`, with `recursive` also every
    /// directory below it; its descendants are hidden. A file is left alone.
    pub fn collapse(&mut self, index: usize, recursive: bool)
        requires
            old(self).wf(),
            index < old(self)@.len(),
        ensures
            final(self).wf(),
            final(self)@ == toggled(old(self)@, index as int, true, recursive),
            final(self).spec_file_count() == old(self).spec_file_count(),
    {
        self.toggle(index, true, recursive);
    }

    /// Expands the directory at `index`, with `recursive` also every
    /// directory below it; descendants with no collapsed ancestor left are
    /// shown again. A file is left alone.
    pub fn expand(&mut self, index: usize, recursive: bool)
        requires
            old(self).wf(),
            index < old(self)@.len(),
        ensures
            final(self).wf(),
            final(self)@ == toggled(old(self)@, index as int, false, recursive),
            final(self).spec_file_count() == old(self).spec_file_count(),
    {
        self.toggle(index, false, recursive);
    }

    /// Brings the node at `index` into view: expands every directory above
    /// it, then sets all visibility flags anew.
    pub fn show_element(&mut self, index: usize)
        requires
            old(self).wf(),
            index < old(self)@.len(),
        ensures
            final(self).wf(),
            final(self)@ == revealed(old(self)@, index as int),
            final(self)@[index as int].visible,
            final(self).spec_file_count() == old(self).spec_file_count(),
    {
        let n: usize = self.len();
        let mut cur: usize = index;
        let mut above: Option<usize> = self.find_parent(cur);
        assert(self@ =~= reveal_progress(old(self)@, index as int, index as int));
        while above.is_some()
            invariant
                n == old(self)@.len(),
                on_chain(old(self)@, index as int, cur as int),
                self@ == reveal_progress(old(self)@, index as int, cur as int),
                above is None <==> parent(old(self)@, cur as int) < 0,
                above is Some ==> above.unwrap() == parent(old(self)@, cur as int),
                self.spec_file_count() == old(self).spec_file_count(),
            decreases cur,
        {
            let p: usize = above.unwrap();
            proof {
                lemma_reveal_step(old(self)@, index as int, cur as int);
            }
            self.set_collapsed_at(p, false);
            cur = p;
            above = self.find_parent(cur);
            proof {
                lemma_same_shape_parent(
                    old(self)@,
                    self@,
                    old(self)@[cur as int].indent,
                    cur as int - 1,
                );
            }
        }
        proof {
            lemma_reveal_done(old(self)@, index as int, cur as int);
        }
        self.refresh_visibility(0, n, None);
        proof {
            lemma_reveal_settles(old(self)@, index as int, self@);
            lemma_same_shape_files(old(self)@, self@, self@.len() as int);
        }
    }

    /// Adds a node at the end of the list.
    fn push_item(&mut self, item: FileTreeItem)
        ensures
            final(self)@ == old(self)@.push(item@),
            final(self).spec_file_count() == old(self).spec_file_count(),
    {
        self.tree_items.push(item);
        assert(self@ =~= old(self)@.push(item@));
    }

    /// Adds one path: the directories above it that are missing, then its
    /// file. `dirs` holds the paths of the directories in the list.
    fn add_path(
        &mut self,
        dirs: &mut StringHashSet,
        path: &str,
        depth: u8,
        collapsed: &StringHashSet,
    )
        requires
            valid(path@),
            depth == crate::paths::depth(path@),
            old(dirs)@ == dir_paths(old(self)@),
        ensures
            final(self)@ == with_path(old(self)@, path@, collapsed@),
            final(self).spec_file_count() == old(self).spec_file_count(),
            final(dirs)@ == dir_paths(final(self)@),
    {
        let n: usize = path.unicode_len();
        let mut indent: u8 = 0;
        let mut k: usize = 0;
        while k < n
            invariant
                k <= n == path@.len(),
                depth == crate::paths::depth(path@),
                indent == separators(path@, k as int),
                self@ == with_dirs(old(self)@, path@, collapsed@, k as int),
                dirs@ == dir_paths(self@),
                self.spec_file_count() == old(self).spec_file_count(),
            decreases n - k,
        {
            if path.get_char(k) == SEPARATOR {
                let prefix: &str = path.substring_char(0, k);
                if !dirs.contains(prefix) {
                    let item = FileTreeItem::new_path(
                        prefix.to_owned(),
                        indent,
                        collapsed.contains(prefix),
                    );
                    proof {
                        lemma_dir_paths_push(self@, item@);
                    }
                    self.push_item(item);
                    dirs.insert(prefix.to_owned());
                }
                proof {
                    lemma_separators_monotonic(path@, k as int + 1, n as int);
                }
                indent = indent + 1;
            }
            k = k + 1;
        }
        let item = FileTreeItem::new_file(path.to_owned(), depth);
        proof {
            lemma_dir_paths_push(self@, item@);
        }
        self.push_item(item);
    }

    /// Builds the store from the paths, in the order given, with the
    /// directories named in `collapsed` collapsed. Fails on the first path
    /// that is not valid, with the reason for that path.
    pub fn new(list: &[&str], collapsed: &[&str]) -> (built: Result<Self, Error>)
        ensures
            built is Ok <==> first_fault(texts(list@)) is None,
            built is Err ==> first_fault(texts(list@)) == Some(built->Err_0),
            built is Ok ==> {
                &&& built->Ok_0.wf()
                &&& built->Ok_0@ == tree_of(texts(list@), text_set(collapsed@))
                &&& built->Ok_0.spec_file_count() == list@.len()
            },
    {
        let collapsed_set: StringHashSet = text_set_of(collapsed);
        let mut dirs: StringHashSet = StringHashSet::new();
        let mut store = Self { tree_items: Vec::new(), files: list.len() };
        assert(store@ =~= Seq::<ItemView>::empty());
        assert(dirs@ =~= dir_paths(store@));
        let mut i: usize = 0;
        while i < list.len()
            invariant
                i <= list@.len(),
                store.files == list@.len(),
                collapsed_set@ == text_set(collapsed@),
                first_fault(texts(list@).take(i as int)) is None,
                store@ == flat(texts(list@).take(i as int), text_set(collapsed@)),
                dirs@ == dir_paths(store@),
            decreases list@.len() - i,
        {
            let path: &str = list[i];
            proof {
                let upto = texts(list@).take(i as int + 1);
                assert(upto.drop_last() =~= texts(list@).take(i as int));
                assert(upto.last() == path@);
            }
            match check_path(path) {
                Ok(depth) => {
                    store.add_path(&mut dirs, path, depth, &collapsed_set);
                },
                Err(e) => {
                    proof {
                        lemma_first_fault_stays(texts(list@), i as int + 1);
                    }
                    return Err(e);
                },
            }
            i = i + 1;
        }
        let n: usize = store.len();
        let ghost all = flat(texts(list@), text_set(collapsed@));
        assert(texts(list@).take(i as int) =~= texts(list@));
        store.refresh_visibility(0, n, None);
        proof {
            lemma_settle_unique(all, store@);
            lemma_flat_files(texts(list@), text_set(collapsed@));
            lemma_same_shape_files(all, store@, all.len() as int);
            lemma_flat_only_dirs_collapsed(texts(list@), text_set(collapsed@));
            assert(only_dirs_collapsed(all));
            assert forall|k: int| 0 <= k < store@.len() && (#[trigger] store@[k]).collapsed implies store@[k].is_dir by {
                assert(all[k].collapsed == store@[k].collapsed);
                assert(all[k].is_dir == store@[k].is_dir);
            }
        }
        Ok(store)
    }

    /// Whether the node at `index` exists and is flagged visible.
    pub fn is_visible_at(&self, index: usize) -> (visible: bool)
        ensures
            visible == visible_at(self@, index as int),
    {
        match self.get(index) {
            Some(item) => item.info().is_visible(),
            None => false,
        }
    }

    /// The absolute indices of at most `max_amount` visible nodes from `start` on, ascending.
    pub fn iterate(&self, start: usize, max_amount: usize) -> (rows: Vec<usize>)
        ensures
            rows@.map_values(|i: usize| i as int) == visible_window(
                self@,
                start as int,
                max_amount as nat,
            ),
    {
        let n: usize = self.len();
        let mut rows: Vec<usize> = Vec::new();
        let mut i: usize = start;
        assert(rows@.map_values(|i: usize| i as int) =~= visible_up(self@, start as int, start as int));
        while i < n && rows.len() < max_amount
            invariant
                n == self@.len(),
                start <= i,
                i <= n || i == start,
                rows@.len() <= max_amount,
                rows@.map_values(|i: usize| i as int) == visible_up(self@, start as int, i as int),
            decreases n - i,
        {
            if self.is_visible_at(i) {
                rows.push(i);
            }
            i = i + 1;
            assert(rows@.map_values(|i: usize| i as int) =~= visible_up(self@, start as int, i as int));
        }
        proof {
            if i <= n {
                lemma_visible_up_split(self@, start as int, i as int, n as int);
            } else {
                lemma_visible_up(self@, start as int, n as int);
            }
            let all = visible_up(self@, start as int, n as int);
            let got = rows@.map_values(|i: usize| i as int);
            if i >= n {
                assert(got =~= all);
                if max_amount as nat <= all.len() {
                    assert(all.take(max_amount as int) =~= all);
                }
            } else {
                assert(all.take(max_amount as int) =~= got);
            }
        }
        rows
    }
}

impl Default for FileTreeItems {
    /// The empty store.
    fn default() -> (store: Self)
        ensures
            store.wf(),
            store@ == Seq::<ItemView>::empty(),
            store.spec_file_count() == 0,
    {
        let store = Self { tree_items: Vec::new(), files: 0 };
        assert(store@ =~= Seq::<ItemView>::empty());
        store
    }
}

} // verus!
