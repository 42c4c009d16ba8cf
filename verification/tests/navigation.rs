use filetreelist::{FileTree, MoveSelection};

const ALL: [MoveSelection; 10] = [
    MoveSelection::Up,
    MoveSelection::Down,
    MoveSelection::Left,
    MoveSelection::Right,
    MoveSelection::Top,
    MoveSelection::End,
    MoveSelection::PageDown,
    MoveSelection::PageUp,
    MoveSelection::HalfPageDown,
    MoveSelection::HalfPageUp,
];

fn six() -> FileTree {
    //0 a/
    //1   b/
    //2     c
    //3     c2
    //4   d
    //5   e
    FileTree::new(&["a/b/c", "a/b/c2", "a/d", "a/e"], &[]).unwrap()
}

fn visible(tree: &FileTree) -> Vec<bool> {
    (0..tree.items().len())
        .map(|i| tree.items().get(i).unwrap().info().is_visible())
        .collect()
}

fn visual(tree: &FileTree) -> (usize, usize) {
    let v = tree.visual_selection().unwrap();
    (v.index, v.count)
}

#[test]
fn empty_tree_has_no_selection_and_ignores_commands() {
    let mut tree = FileTree::new(&[], &[]).unwrap();
    assert!(tree.is_empty());
    assert_eq!(tree.selection(), None);
    assert!(tree.visual_selection().is_none());
    assert!(tree.selected_file().is_none());
    assert!(tree.iterate(0, 10).is_empty());
    for command in ALL {
        assert!(!tree.move_selection(command));
        assert_eq!(tree.selection(), None);
        assert!(tree.visual_selection().is_none());
    }
    tree.collapse_but_root();
    tree.collapse_recursive();
    tree.expand_recursive();
    assert!(!tree.select_file("a"));
    assert_eq!(tree.selection(), None);

    let other = FileTree::default();
    assert!(other.is_empty());
    assert_eq!(other.selection(), None);
    assert_eq!(other.window_height(), None);
}

#[test]
fn new_tree_selects_the_first_node() {
    let tree = six();
    assert!(!tree.is_empty());
    assert_eq!(tree.selection(), Some(0));
    assert_eq!(visual(&tree), (0, 6));
    assert_eq!(tree.window_height(), None);
    assert_eq!(tree.items().len(), 6);
    assert_eq!(tree.items().file_count(), 4);
}

#[test]
fn new_tree_counts_only_visible_nodes() {
    let tree = FileTree::new(&["a/b/c", "a/b/c2", "a/d"], &["a/b"]).unwrap();
    assert_eq!(tree.selection(), Some(0));
    assert_eq!(visual(&tree), (0, 3));
}

#[test]
fn selection_is_kept_through_every_command() {
    let mut tree = six();
    tree.set_window_height(Some(4));
    for round in 0..3 {
        for command in ALL {
            tree.move_selection(command);
            let selected = tree.selection();
            assert!(selected.is_some(), "{:?} in round {}", command, round);
            assert!(selected.unwrap() < 6);
            let (index, count) = visual(&tree);
            assert!(index < count, "{:?} in round {}", command, round);
        }
    }
}

#[test]
fn up_at_the_top_finds_nothing() {
    let mut tree = six();
    assert!(!tree.move_selection(MoveSelection::Up));
    assert_eq!(tree.selection(), Some(0));
}

#[test]
fn down_then_up_comes_back() {
    for start in ["a", "a/b", "a/b/c", "a/b/c2", "a/d"] {
        let mut tree = six();
        tree.select_file(start);
        let before = tree.selection();
        assert!(tree.move_selection(MoveSelection::Down));
        assert_eq!(tree.selection(), before.map(|i| i + 1));
        assert!(tree.move_selection(MoveSelection::Up));
        assert_eq!(tree.selection(), before);
    }
}

#[test]
fn up_skips_hidden_nodes() {
    let mut tree = FileTree::new(&["a/b/c", "a/b/c2", "a/d", "a/e"], &["a/b"]).unwrap();
    assert!(tree.select_file("a/d"));
    assert_eq!(tree.selection(), Some(4));
    assert_eq!(visual(&tree), (2, 4));
    assert!(tree.move_selection(MoveSelection::Up));
    assert_eq!(tree.selection(), Some(1));
    assert_eq!(visual(&tree), (1, 4));
}

#[test]
fn end_lands_on_the_last_visible_node() {
    let mut tree = six();
    assert!(tree.move_selection(MoveSelection::End));
    assert_eq!(tree.selection(), Some(5));
    assert_eq!(visual(&tree), (5, 6));
    assert!(tree.move_selection(MoveSelection::End));
    assert_eq!(tree.selection(), Some(5));

    let mut tree = FileTree::new(&["a/b", "c/d", "c/e"], &["c"]).unwrap();
    assert!(tree.move_selection(MoveSelection::End));
    assert_eq!(tree.selection(), Some(2));
    assert_eq!(visual(&tree), (2, 3));
}

#[test]
fn top_lands_on_the_first_node() {
    let mut tree = six();
    assert!(tree.move_selection(MoveSelection::Top));
    assert_eq!(tree.selection(), Some(0));
    tree.move_selection(MoveSelection::End);
    assert!(tree.move_selection(MoveSelection::Top));
    assert_eq!(tree.selection(), Some(0));
    assert_eq!(visual(&tree), (0, 6));
}

#[test]
fn page_jumps_need_a_window_height() {
    let mut tree = six();
    assert!(!tree.move_selection(MoveSelection::PageDown));
    assert!(!tree.move_selection(MoveSelection::PageUp));
    assert!(!tree.move_selection(MoveSelection::HalfPageDown));
    assert!(!tree.move_selection(MoveSelection::HalfPageUp));
    assert_eq!(tree.selection(), Some(0));

    tree.set_window_height(Some(0));
    assert!(!tree.move_selection(MoveSelection::PageDown));
    tree.set_window_height(Some(1));
    assert_eq!(tree.window_height(), Some(1));
    // a page of one row is the selected row itself
    assert!(tree.move_selection(MoveSelection::PageDown));
    assert_eq!(tree.selection(), Some(0));
    // half of one row is no row
    assert!(!tree.move_selection(MoveSelection::HalfPageDown));
    assert!(!tree.move_selection(MoveSelection::HalfPageUp));
}

#[test]
fn page_jumps_stop_at_the_ends() {
    let mut tree = six();
    tree.set_window_height(Some(4));
    assert!(tree.move_selection(MoveSelection::PageDown));
    assert_eq!(tree.selection(), Some(3));
    assert!(tree.move_selection(MoveSelection::PageDown));
    assert_eq!(tree.selection(), Some(5));
    assert!(tree.move_selection(MoveSelection::PageDown));
    assert_eq!(tree.selection(), Some(5));
    assert!(tree.move_selection(MoveSelection::PageUp));
    assert_eq!(tree.selection(), Some(2));
    assert!(tree.move_selection(MoveSelection::PageUp));
    assert_eq!(tree.selection(), Some(0));
    assert!(tree.move_selection(MoveSelection::PageUp));
    assert_eq!(tree.selection(), Some(0));
}

#[test]
fn half_page_jumps_take_half_the_window() {
    let mut tree = six();
    tree.set_window_height(Some(5));
    assert!(tree.move_selection(MoveSelection::HalfPageDown));
    assert_eq!(tree.selection(), Some(1));
    assert!(tree.move_selection(MoveSelection::HalfPageDown));
    assert_eq!(tree.selection(), Some(2));
    tree.set_window_height(Some(6));
    assert!(tree.move_selection(MoveSelection::HalfPageDown));
    assert_eq!(tree.selection(), Some(4));
    assert!(tree.move_selection(MoveSelection::HalfPageUp));
    assert_eq!(tree.selection(), Some(2));
    assert!(tree.move_selection(MoveSelection::HalfPageUp));
    assert_eq!(tree.selection(), Some(0));
}

#[test]
fn page_jumps_count_visible_rows() {
    let mut tree = FileTree::new(&["a/b/c", "a/b/c2", "a/d", "a/e"], &["a/b"]).unwrap();
    tree.set_window_height(Some(3));
    assert!(tree.move_selection(MoveSelection::PageDown));
    assert_eq!(tree.selection(), Some(4));
    assert_eq!(visual(&tree), (2, 4));
    assert!(tree.move_selection(MoveSelection::PageUp));
    assert_eq!(tree.selection(), Some(0));
}

#[test]
fn left_without_a_parent_finds_nothing() {
    let mut tree = FileTree::new(&["x", "a/b"], &[]).unwrap();
    // 0 x, 1 a, 2 a/b
    assert!(!tree.move_selection(MoveSelection::Left));
    assert_eq!(tree.selection(), Some(0));
    assert!(tree.select_file("a"));
    assert!(tree.move_selection(MoveSelection::Left));
    assert_eq!(tree.selection(), Some(1));
    assert_eq!(visible(&tree), vec![true, true, false]);
    // collapsed and at the top: nothing above
    assert!(!tree.move_selection(MoveSelection::Left));
    assert_eq!(tree.selection(), Some(1));
}

#[test]
fn right_on_a_file_finds_nothing() {
    let mut tree = six();
    assert!(tree.select_file("a/b/c"));
    assert!(!tree.move_selection(MoveSelection::Right));
    assert_eq!(tree.selection(), Some(2));
}

#[test]
fn right_on_the_last_expanded_directory_finds_nothing() {
    let mut tree = FileTree::new(&["a/b"], &["a"]).unwrap();
    assert!(tree.move_selection(MoveSelection::Right));
    assert_eq!(tree.selection(), Some(0));
    assert!(tree.move_selection(MoveSelection::Right));
    assert_eq!(tree.selection(), Some(1));
    assert!(!tree.move_selection(MoveSelection::Right));
}

#[test]
fn toggles_keep_the_selection_and_the_visual_position() {
    let mut tree = six();
    assert!(tree.select_file("a/b"));
    assert_eq!(visual(&tree), (1, 6));

    assert!(tree.move_selection(MoveSelection::Left));
    assert_eq!(tree.selection(), Some(1));
    assert_eq!(visible(&tree), vec![true, true, false, false, true, true]);
    // kept as it was: the selection did not change
    assert_eq!(visual(&tree), (1, 6));

    assert!(tree.move_selection(MoveSelection::Right));
    assert_eq!(tree.selection(), Some(1));
    assert_eq!(visible(&tree), vec![true; 6]);
    assert_eq!(visual(&tree), (1, 6));
}

#[test]
fn collapsed_nodes_are_not_drawn() {
    let mut tree = six();
    assert_eq!(
        tree.iterate(0, 10),
        vec![
            (0, true),
            (1, false),
            (2, false),
            (3, false),
            (4, false),
            (5, false)
        ]
    );
    assert!(tree.select_file("a/b"));
    assert!(tree.move_selection(MoveSelection::Left));
    assert_eq!(
        tree.iterate(0, 10),
        vec![(0, false), (1, true), (4, false), (5, false)]
    );
    assert!(tree.move_selection(MoveSelection::Right));
    assert_eq!(tree.iterate(0, 10).len(), 6);
}

#[test]
fn iterate_starts_at_a_row() {
    let mut tree = six();
    assert!(tree.select_file("a/d"));
    assert_eq!(tree.iterate(1, 2), vec![(1, false), (2, false)]);
    assert_eq!(tree.iterate(3, 2), vec![(3, false), (4, true)]);
    assert_eq!(tree.iterate(5, 2), vec![(5, false)]);
    // no such row: from the first node
    assert_eq!(tree.iterate(6, 2), vec![(0, false), (1, false)]);
    assert_eq!(tree.iterate(2, 0), vec![]);

    tree.move_selection(MoveSelection::Up);
    tree.move_selection(MoveSelection::Up);
    tree.move_selection(MoveSelection::Up);
    assert_eq!(tree.selection(), Some(1));
    tree.move_selection(MoveSelection::Left);
    // rows are a, b, d, e
    assert_eq!(tree.iterate(2, 5), vec![(4, false), (5, false)]);
    assert_eq!(tree.iterate(1, 2), vec![(1, true), (4, false)]);
}

#[test]
fn select_file_brings_a_hidden_node_into_view() {
    let mut tree = FileTree::new(&["a/b/c", "a/b/c2", "a/d", "e/f"], &["a", "a/b", "e"]).unwrap();
    // 0 a, 1 a/b, 2 a/b/c, 3 a/b/c2, 4 a/d, 5 e, 6 e/f
    assert_eq!(
        visible(&tree),
        vec![true, false, false, false, false, true, false]
    );
    assert_eq!(visual(&tree), (0, 2));
    assert!(tree.select_file("a/b/c2"));
    assert_eq!(tree.selection(), Some(3));
    assert_eq!(
        visible(&tree),
        vec![true, true, true, true, true, true, false]
    );
    assert_eq!(visual(&tree), (3, 6));
    assert!(!tree.select_file("a/b/c2"));
    assert_eq!(tree.selection(), Some(3));
}

#[test]
fn select_file_without_a_match_changes_nothing() {
    let mut tree = FileTree::new(&["a/b/c", "a/d"], &["a"]).unwrap();
    assert!(tree.select_file("a/d"));
    assert_eq!(tree.selection(), Some(3));
    assert_eq!(visual(&tree), (3, 4));
    assert!(!tree.select_file("a/x"));
    assert!(!tree.select_file(""));
    assert!(!tree.select_file("a/"));
    assert_eq!(tree.selection(), Some(3));
    assert_eq!(visual(&tree), (3, 4));
}

#[test]
fn select_file_takes_the_first_of_equal_paths() {
    let mut tree = FileTree::new(&["a/b", "a/b", "c"], &[]).unwrap();
    // 0 a, 1 a/b, 2 a/b, 3 c
    assert_eq!(tree.items().len(), 4);
    assert!(tree.select_file("c"));
    assert!(tree.select_file("a/b"));
    assert_eq!(tree.selection(), Some(1));
}

#[test]
fn selected_file_is_a_file() {
    let mut tree = six();
    assert!(tree.selected_file().is_none());
    assert!(tree.select_file("a/b/c2"));
    let info = tree.selected_file().unwrap();
    assert_eq!(info.full_path(), "a/b/c2");
    assert_eq!(info.indent(), 2);
    assert!(info.is_visible());
    assert!(tree.move_selection(MoveSelection::Left));
    assert!(tree.selected_file().is_none());
}

#[test]
fn collapse_but_root_leaves_one_level_open() {
    let mut tree = FileTree::new(&["a/b/c", "a/b/d/e", "a/f", "g/h"], &[]).unwrap();
    // 0 a, 1 a/b, 2 a/b/c, 3 a/b/d, 4 a/b/d/e, 5 a/f, 6 g, 7 g/h
    assert!(tree.select_file("a/b/d/e"));
    tree.collapse_but_root();
    assert_eq!(
        visible(&tree),
        vec![true, true, false, false, false, true, true, true]
    );
    assert!(tree.items().get(1).unwrap().kind().is_path_collapsed());
    assert!(tree.items().get(3).unwrap().kind().is_path_collapsed());
    assert!(!tree.items().get(0).unwrap().kind().is_path_collapsed());
    assert!(!tree.items().get(6).unwrap().kind().is_path_collapsed());
    // the selection stays where it was, hidden or not
    assert_eq!(tree.selection(), Some(4));
    assert_eq!(visual(&tree), (4, 8));
    // and the next move lands on a visible node
    assert!(tree.move_selection(MoveSelection::Up));
    assert_eq!(tree.selection(), Some(1));
    assert_eq!(visual(&tree), (1, 5));
}

#[test]
fn hidden_selection_has_visual_index_zero() {
    let mut tree = FileTree::new(&["a/b/c", "a/b/d/e", "a/f", "g/h"], &[]).unwrap();
    assert!(tree.select_file("a/b/d/e"));
    tree.collapse_but_root();
    // a move that comes back to a hidden node cannot happen; Left goes up
    assert!(tree.move_selection(MoveSelection::Left));
    assert_eq!(tree.selection(), Some(1));
    assert!(tree.select_file("a/f"));
    assert_eq!(visual(&tree), (2, 5));
}

#[test]
fn collapse_and_expand_recursive_act_on_the_selection() {
    let mut tree = FileTree::new(&["a/b/c", "a/b/d/e", "a/f", "g/h"], &[]).unwrap();
    assert!(tree.select_file("a/b"));
    tree.collapse_recursive();
    assert_eq!(
        visible(&tree),
        vec![true, true, false, false, false, true, true, true]
    );
    assert!(tree.items().get(3).unwrap().kind().is_path_collapsed());
    assert_eq!(tree.selection(), Some(1));

    // one level only: the directory below stays collapsed
    assert!(tree.move_selection(MoveSelection::Right));
    assert_eq!(
        visible(&tree),
        vec![true, true, true, true, false, true, true, true]
    );
    assert!(tree.move_selection(MoveSelection::Left));

    tree.expand_recursive();
    assert_eq!(visible(&tree), vec![true; 8]);
    assert!(!tree.items().get(3).unwrap().kind().is_path_collapsed());
    assert_eq!(tree.selection(), Some(1));

    // on a file nothing happens
    assert!(tree.select_file("a/f"));
    tree.collapse_recursive();
    assert_eq!(visible(&tree), vec![true; 8]);
}
