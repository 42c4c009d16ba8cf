//! From a list of paths to the flat list of nodes.
//!
//! Paths are taken in the order given. Each contributes the directories above
//! it that the list does not hold yet, outermost first, and then its file.

use crate::error::Error;
use crate::item::ItemView;
use crate::layout::{file_total, files_below, only_dirs_collapsed, settle};
use crate::paths::{depth, fault, SEPARATOR, separators, valid};
use vstd::prelude::*;

verus! {

/// Whether the list holds a directory with this path.
pub open spec fn has_dir(items: Seq<ItemView>, path: Seq<char>) -> bool {
    exists|i: int| 0 <= i < items.len() && (#[trigger] items[i]).is_dir && items[i].path == path
}

/// The paths of the directories in the list.
pub open spec fn dir_paths(items: Seq<ItemView>) -> Set<Seq<char>> {
    Set::new(|path: Seq<char>| has_dir(items, path))
}

/// A node added at the end adds its path to the directories if it is one.
pub proof fn lemma_dir_paths_push(items: Seq<ItemView>, item: ItemView)
    ensures
        dir_paths(items.push(item)) == if item.is_dir {
            dir_paths(items).insert(item.path)
        } else {
            dir_paths(items)
        },
{
    let longer = items.push(item);
    let expected = if item.is_dir {
        dir_paths(items).insert(item.path)
    } else {
        dir_paths(items)
    };
    assert forall|path: Seq<char>| dir_paths(longer).contains(path) <==> expected.contains(path) by {
        if has_dir(longer, path) {
            let i = choose|i: int| 0 <= i < longer.len() && (#[trigger] longer[i]).is_dir && longer[i].path == path;
            if i < items.len() {
                assert(items[i].is_dir && items[i].path == path);
            }
        }
        if has_dir(items, path) {
            let i = choose|i: int| 0 <= i < items.len() && (#[trigger] items[i]).is_dir && items[i].path == path;
            assert(longer[i].is_dir && longer[i].path == path);
        }
        if item.is_dir && path == item.path {
            assert(longer[items.len() as int].is_dir && longer[items.len() as int].path == path);
        }
    }
    assert(dir_paths(longer) =~= expected);
}

/// The directory whose path is the first `n` characters of `path`.
pub open spec fn dir_item(path: Seq<char>, n: int, collapsed: Set<Seq<char>>) -> ItemView {
    ItemView {
        path: path.subrange(0, n),
        indent: separators(path, n),
        is_dir: true,
        collapsed: collapsed.contains(path.subrange(0, n)),
        visible: true,
    }
}

/// The file with this path.
pub open spec fn file_item(path: Seq<char>) -> ItemView {
    ItemView { path, indent: depth(path), is_dir: false, collapsed: false, visible: true }
}

/// The list with the directories above `path` added that end within its
/// first `n` characters and that the list did not hold.
pub open spec fn with_dirs(
    items: Seq<ItemView>,
    path: Seq<char>,
    collapsed: Set<Seq<char>>,
    n: int,
) -> Seq<ItemView>
    decreases n,
{
    if n <= 0 || n > path.len() {
        items
    } else {
        let before = with_dirs(items, path, collapsed, n - 1);
        if path[n - 1] == SEPARATOR && !has_dir(before, path.subrange(0, n - 1)) {
            before.push(dir_item(path, n - 1, collapsed))
        } else {
            before
        }
    }
}

/// The list with one path added: its missing directories, then its file.
pub open spec fn with_path(items: Seq<ItemView>, path: Seq<char>, collapsed: Set<Seq<char>>) -> Seq<ItemView> {
    with_dirs(items, path, collapsed, path.len() as int).push(file_item(path))
}

/// The nodes of the paths in order, every node flagged visible.
pub open spec fn flat(paths: Seq<Seq<char>>, collapsed: Set<Seq<char>>) -> Seq<ItemView>
    decreases paths.len(),
{
    if paths.len() == 0 {
        Seq::empty()
    } else {
        with_path(flat(paths.drop_last(), collapsed), paths.last(), collapsed)
    }
}

/// The tree of the paths, with the directories in `collapsed` collapsed and
/// visibility set accordingly.
pub open spec fn tree_of(paths: Seq<Seq<char>>, collapsed: Set<Seq<char>>) -> Seq<ItemView> {
    settle(flat(paths, collapsed))
}

/// Why the first path that is not valid is refused, if there is such a path.
pub open spec fn first_fault(paths: Seq<Seq<char>>) -> Option<Error>
    decreases paths.len(),
{
    if paths.len() == 0 {
        None
    } else {
        match first_fault(paths.drop_last()) {
            Some(e) => Some(e),
            None => if valid(paths.last()) {
                None
            } else {
                Some(fault(paths.last()))
            },
        }
    }
}

/// A node added at the end does not change the count before it.
pub proof fn lemma_files_below_push(items: Seq<ItemView>, item: ItemView, n: int)
    requires
        n <= items.len(),
    ensures
        files_below(items.push(item), n) == files_below(items, n),
    decreases n,
{
    if 0 < n {
        lemma_files_below_push(items, item, n - 1);
        assert(items.push(item)[n - 1] == items[n - 1]);
    }
}

/// A node added at the end counts if it is a file.
pub proof fn lemma_file_total_push(items: Seq<ItemView>, item: ItemView)
    ensures
        file_total(items.push(item)) == file_total(items) + if item.is_dir { 0nat } else { 1nat },
{
    lemma_files_below_push(items, item, items.len() as int);
    assert(items.push(item)[items.len() as int] == item);
}

/// Adding directories adds no file and removes no node.
pub proof fn lemma_with_dirs(
    items: Seq<ItemView>,
    path: Seq<char>,
    collapsed: Set<Seq<char>>,
    n: int,
)
    ensures
        file_total(with_dirs(items, path, collapsed, n)) == file_total(items),
        with_dirs(items, path, collapsed, n).len() >= items.len(),
    decreases n,
{
    if 0 < n <= path.len() {
        lemma_with_dirs(items, path, collapsed, n - 1);
        let before = with_dirs(items, path, collapsed, n - 1);
        lemma_file_total_push(before, dir_item(path, n - 1, collapsed));
    }
}

/// The flat list holds one file for each path.
pub proof fn lemma_flat_files(paths: Seq<Seq<char>>, collapsed: Set<Seq<char>>)
    ensures
        file_total(flat(paths, collapsed)) == paths.len(),
        flat(paths, collapsed).len() >= paths.len(),
    decreases paths.len(),
{
    if paths.len() > 0 {
        let before = flat(paths.drop_last(), collapsed);
        lemma_flat_files(paths.drop_last(), collapsed);
        lemma_with_dirs(before, paths.last(), collapsed, paths.last().len() as int);
        lemma_file_total_push(
            with_dirs(before, paths.last(), collapsed, paths.last().len() as int),
            file_item(paths.last()),
        );
    }
}

/// A fault among the first paths is the fault of the whole list.
pub proof fn lemma_first_fault_stays(paths: Seq<Seq<char>>, n: int)
    requires
        0 <= n <= paths.len(),
        first_fault(paths.take(n)) is Some,
    ensures
        first_fault(paths) == first_fault(paths.take(n)),
    decreases paths.len() - n,
{
    if n < paths.len() {
        assert(paths.take(n + 1).drop_last() =~= paths.take(n));
        lemma_first_fault_stays(paths, n + 1);
    } else {
        assert(paths.take(n) =~= paths);
    }
}

/// Adding directories keeps it so that only directories are collapsed.
pub proof fn lemma_with_dirs_only_dirs_collapsed(
    items: Seq<ItemView>,
    path: Seq<char>,
    collapsed: Set<Seq<char>>,
    n: int,
)
    requires
        only_dirs_collapsed(items),
    ensures
        only_dirs_collapsed(with_dirs(items, path, collapsed, n)),
    decreases n,
{
    if 0 < n <= path.len() {
        lemma_with_dirs_only_dirs_collapsed(items, path, collapsed, n - 1);
        let before = with_dirs(items, path, collapsed, n - 1);
        let after = with_dirs(items, path, collapsed, n);
        assert forall|i: int| 0 <= i < after.len() && (#[trigger] after[i]).collapsed implies after[i].is_dir by {
            if i < before.len() {
                assert(after[i] == before[i]);
            }
        }
    }
}

/// In the flat list only directories are collapsed.
pub proof fn lemma_flat_only_dirs_collapsed(paths: Seq<Seq<char>>, collapsed: Set<Seq<char>>)
    ensures
        only_dirs_collapsed(flat(paths, collapsed)),
    decreases paths.len(),
{
    if paths.len() > 0 {
        lemma_flat_only_dirs_collapsed(paths.drop_last(), collapsed);
        let path = paths.last();
        let base = flat(paths.drop_last(), collapsed);
        lemma_with_dirs_only_dirs_collapsed(base, path, collapsed, path.len() as int);
        let before = with_dirs(base, path, collapsed, path.len() as int);
        let after = flat(paths, collapsed);
        assert forall|i: int| 0 <= i < after.len() && (#[trigger] after[i]).collapsed implies after[i].is_dir by {
            if i < before.len() {
                assert(after[i] == before[i]);
            }
        }
    }
}

} // verus!
