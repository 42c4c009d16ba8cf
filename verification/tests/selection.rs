use filetreelist::{FileTree, MoveSelection};

fn tree_of(paths: &[&str]) -> FileTree {
    FileTree::new(paths, &[]).unwrap()
}

fn is_collapsed(tree: &FileTree, index: usize) -> bool {
    tree.items().get(index).unwrap().kind().is_path_collapsed()
}

fn is_visible(tree: &FileTree, index: usize) -> bool {
    tree.items().get(index).unwrap().info().is_visible()
}

#[test]
fn test_selection() {
    let items = vec![
        "a/b", //
    ];

    let mut tree = FileTree::new(&items, &[]).unwrap();

    assert!(tree.move_selection(MoveSelection::Down));

    assert_eq!(tree.selection(), Some(1));

    assert!(!tree.move_selection(MoveSelection::Down));

    assert_eq!(tree.selection(), Some(1));
}

#[test]
fn test_selection_skips_collapsed() {
    let items = vec![
        "a/b/c", //
        "a/d",   //
    ];

    //0 a/
    //1   b/
    //2     c
    //3   d

    let mut tree = tree_of(&items);

    // select 1, then collapse it in place
    assert!(tree.select_file("a/b"));
    assert!(tree.move_selection(MoveSelection::Left));
    assert_eq!(tree.selection(), Some(1));
    assert!(is_collapsed(&tree, 1));

    assert!(tree.move_selection(MoveSelection::Down));

    assert_eq!(tree.selection(), Some(3));
}

#[test]
fn test_selection_left_collapse() {
    let items = vec![
        "a/b/c", //
        "a/d",   //
    ];

    //0 a/
    //1   b/
    //2     c
    //3   d

    let mut tree = tree_of(&items);

    assert!(tree.select_file("a/b"));
    assert_eq!(tree.selection(), Some(1));

    //collapses 1
    assert!(tree.move_selection(MoveSelection::Left));
    // index will not change
    assert_eq!(tree.selection(), Some(1));

    assert!(is_collapsed(&tree, 1));
    assert!(!is_visible(&tree, 2));
}

#[test]
fn test_selection_left_parent() {
    let items = vec![
        "a/b/c", //
        "a/d",   //
    ];

    //0 a/
    //1   b/
    //2     c
    //3   d

    let mut tree = tree_of(&items);

    assert!(tree.select_file("a/b/c"));
    assert_eq!(tree.selection(), Some(2));

    assert!(tree.move_selection(MoveSelection::Left));
    assert_eq!(tree.selection(), Some(1));

    assert!(tree.move_selection(MoveSelection::Left));
    assert_eq!(tree.selection(), Some(1));

    assert!(tree.move_selection(MoveSelection::Left));
    assert_eq!(tree.selection(), Some(0));
}

#[test]
fn test_selection_right_expand() {
    let items = vec![
        "a/b/c", //
        "a/d",   //
    ];

    //0 a/
    //1   b/
    //2     c
    //3   d

    let mut tree = tree_of(&items);

    // collapse 1, then 0, and end on 0
    assert!(tree.select_file("a/b"));
    assert!(tree.move_selection(MoveSelection::Left));
    assert!(tree.move_selection(MoveSelection::Left));
    assert!(tree.move_selection(MoveSelection::Left));
    assert_eq!(tree.selection(), Some(0));
    assert!(is_collapsed(&tree, 0));
    assert!(is_collapsed(&tree, 1));

    assert!(tree.move_selection(MoveSelection::Right));
    assert_eq!(tree.selection(), Some(0));
    assert!(!is_collapsed(&tree, 0));

    assert!(tree.move_selection(MoveSelection::Right));
    assert_eq!(tree.selection(), Some(1));
    assert!(is_collapsed(&tree, 1));

    assert!(tree.move_selection(MoveSelection::Right));
    assert_eq!(tree.selection(), Some(1));
    assert!(!is_collapsed(&tree, 1));
}

#[test]
fn test_selection_top() {
    let items = vec![
        "a/b/c", //
        "a/d",   //
    ];

    //0 a/
    //1   b/
    //2     c
    //3   d

    let mut tree = tree_of(&items);

    assert!(tree.select_file("a/d"));
    assert_eq!(tree.selection(), Some(3));

    assert!(tree.move_selection(MoveSelection::Top));
    assert_eq!(tree.selection(), Some(0));
}

#[test]
fn test_visible_selection() {
    let items = vec![
        "a/b/c",  //
        "a/b/c2", //
        "a/d",    //
    ];

    //0 a/
    //1   b/
    //2     c
    //3     c2
    //4   d

    let mut tree = tree_of(&items);

    assert!(tree.select_file("a/b"));
    assert_eq!(tree.selection(), Some(1));
    assert!(tree.move_selection(MoveSelection::Left));
    assert!(tree.move_selection(MoveSelection::Down));
    let s = tree.visual_selection().unwrap();

    assert_eq!(s.count, 3);
    assert_eq!(s.index, 2);
}

#[test]
fn test_selection_page_updown() {
    let items = vec![
        "a/b/c",  //
        "a/b/c2", //
        "a/d",    //
        "a/e",    //
    ];

    //0 a/
    //1   b/
    //2     c
    //3     c2
    //4   d
    //5   e

    let mut tree = tree_of(&items);

    tree.set_window_height(Some(3));

    assert_eq!(tree.selection(), Some(0));
    assert!(tree.move_selection(MoveSelection::PageDown));
    assert_eq!(tree.selection(), Some(2));
    assert!(tree.move_selection(MoveSelection::PageDown));
    assert_eq!(tree.selection(), Some(4));
    assert!(tree.move_selection(MoveSelection::PageUp));
    assert_eq!(tree.selection(), Some(2));
    assert!(tree.move_selection(MoveSelection::PageUp));
    assert_eq!(tree.selection(), Some(0));
}
