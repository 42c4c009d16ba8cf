//! Cursor navigation over a collapsible file tree that is kept as a flat list.
//!
//! Every node has a fixed absolute index in the flat list. Collapsing a
//! directory hides its descendants without moving anything, so a second index
//! space exists: the visual index, the rank of a node among the visible ones.
//! [`FileTree`] keeps a selection in absolute terms and answers navigation
//! commands consistently across both.

pub mod cover;
pub mod error;
pub mod filetree;
pub mod filetreeitems;
pub mod flatten;
pub mod item;
pub mod laws;
pub mod layout;
pub mod navigation;
pub mod paths;
pub mod toggle;
pub mod unfold;
pub mod visible;

pub use error::Error;
pub use filetree::FileTree;
pub use filetreeitems::FileTreeItems;
pub use item::{FileTreeItem, FileTreeItemKind, PathCollapsed, TreeItemInfo};
pub use navigation::{MoveSelection, VisualSelection};
