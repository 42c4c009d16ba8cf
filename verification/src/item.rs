//! One node of the flattened tree.

use vstd::prelude::*;

verus! {

/// The mathematical content of a node.
pub struct ItemView {
    /// The full path, from the root of the tree to this node.
    pub path: Seq<char>,
    /// How many directories lie above this node.
    pub indent: nat,
    /// Whether the node is a directory.
    pub is_dir: bool,
    /// Whether the node is a collapsed directory. Never set on a file.
    pub collapsed: bool,
    /// The visibility flag as stored.
    pub visible: bool,
}

/// What every node has, file or directory.
#[derive(Debug)]
pub struct TreeItemInfo {
    indent: u8,
    visible: bool,
    full_path: String,
}

impl TreeItemInfo {
    pub closed spec fn spec_indent(&self) -> nat {
        self.indent as nat
    }

    pub closed spec fn spec_visible(&self) -> bool {
        self.visible
    }

    pub closed spec fn spec_path(&self) -> Seq<char> {
        self.full_path@
    }

    /// A visible entry at the given depth.
    pub fn new(indent: u8, full_path: String) -> (info: Self)
        ensures
            info.spec_indent() == indent,
            info.spec_visible(),
            info.spec_path() == full_path@,
    {
        Self { indent, visible: true, full_path }
    }

    /// Whether the node is shown, given the collapse state of the directories above it.
    pub fn is_visible(&self) -> (visible: bool)
        ensures
            visible == self.spec_visible(),
    {
        self.visible
    }

    /// The full path of the node.
    pub fn full_path(&self) -> (path: &str)
        ensures
            path@ == self.spec_path(),
    {
        self.full_path.as_str()
    }

    /// How many directories lie above the node.
    pub fn indent(&self) -> (indent: u8)
        ensures
            indent == self.spec_indent(),
    {
        self.indent
    }

    pub(crate) fn set_visible(&mut self, visible: bool)
        ensures
            final(self).spec_visible() == visible,
            final(self).spec_indent() == old(self).spec_indent(),
            final(self).spec_path() == old(self).spec_path(),
    {
        self.visible = visible;
    }
}

/// The collapse state of a directory.
#[derive(Clone, Copy, Debug, PartialEq, Eq, Structural)]
pub struct PathCollapsed(pub bool);

/// File or directory; a directory knows whether it is collapsed.
#[derive(Clone, Copy, Debug, PartialEq, Eq, Structural)]
pub enum FileTreeItemKind {
    Path(PathCollapsed),
    File,
}

impl FileTreeItemKind {
    /// Whether this is a directory.
    pub fn is_path(&self) -> (dir: bool)
        ensures
            dir == (*self is Path),
    {
        match self {
            FileTreeItemKind::Path(_) => true,
            FileTreeItemKind::File => false,
        }
    }

    /// Whether this is a collapsed directory.
    pub fn is_path_collapsed(&self) -> (collapsed: bool)
        ensures
            collapsed == (*self == FileTreeItemKind::Path(PathCollapsed(true))),
    {
        match self {
            FileTreeItemKind::Path(PathCollapsed(collapsed)) => *collapsed,
            FileTreeItemKind::File => false,
        }
    }
}

/// A node of the flattened tree: a file or a directory.
#[derive(Debug)]
pub struct FileTreeItem {
    info: TreeItemInfo,
    kind: FileTreeItemKind,
}

impl View for FileTreeItem {
    type V = ItemView;

    closed spec fn view(&self) -> ItemView {
        ItemView {
            path: self.info.spec_path(),
            indent: self.info.spec_indent(),
            is_dir: self.kind is Path,
            collapsed: self.kind == FileTreeItemKind::Path(PathCollapsed(true)),
            visible: self.info.spec_visible(),
        }
    }
}

impl FileTreeItem {
    /// A visible file entry.
    pub fn new_file(full_path: String, indent: u8) -> (item: Self)
        ensures
            item@ == (ItemView {
                path: full_path@,
                indent: indent as nat,
                is_dir: false,
                collapsed: false,
                visible: true,
            }),
    {
        Self { info: TreeItemInfo::new(indent, full_path), kind: FileTreeItemKind::File }
    }

    /// A visible directory entry, collapsed or not.
    pub fn new_path(full_path: String, indent: u8, collapsed: bool) -> (item: Self)
        ensures
            item@ == (ItemView {
                path: full_path@,
                indent: indent as nat,
                is_dir: true,
                collapsed,
                visible: true,
            }),
    {
        Self {
            info: TreeItemInfo::new(indent, full_path),
            kind: FileTreeItemKind::Path(PathCollapsed(collapsed)),
        }
    }

    /// What the node has in common with every other.
    pub fn info(&self) -> (info: &TreeItemInfo)
        ensures
            info.spec_path() == self@.path,
            info.spec_indent() == self@.indent,
            info.spec_visible() == self@.visible,
    {
        &self.info
    }

    /// File or directory, with the collapse state.
    pub fn kind(&self) -> (kind: &FileTreeItemKind)
        ensures
            (*kind is Path) == self@.is_dir,
            (*kind == FileTreeItemKind::Path(PathCollapsed(true))) == self@.collapsed,
    {
        &self.kind
    }

    /// Marks a directory collapsed or expanded. A file is left as it is.
    pub(crate) fn set_collapsed(&mut self, collapsed: bool)
        ensures
            final(self)@ == (ItemView {
                collapsed: old(self)@.is_dir && collapsed,
                ..old(self)@
            }),
    {
        if self.kind.is_path() {
            self.kind = FileTreeItemKind::Path(PathCollapsed(collapsed));
        }
    }

    /// Sets the visibility flag.
    pub(crate) fn set_visible(&mut self, visible: bool)
        ensures
            final(self)@ == (ItemView { visible, ..old(self)@ }),
    {
        self.info.set_visible(visible);
    }
}

} // verus!
