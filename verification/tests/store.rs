use filetreelist::paths::{check_path, text_eq, text_set_of};
use filetreelist::{Error, FileTree, FileTreeItemKind, FileTreeItems, PathCollapsed};

fn paths_of(store: &FileTreeItems) -> Vec<String> {
    (0..store.len())
        .map(|i| store.get(i).unwrap().info().full_path().to_string())
        .collect()
}

fn indents_of(store: &FileTreeItems) -> Vec<u8> {
    (0..store.len())
        .map(|i| store.get(i).unwrap().info().indent())
        .collect()
}

fn dirs_of(store: &FileTreeItems) -> Vec<bool> {
    (0..store.len())
        .map(|i| store.get(i).unwrap().kind().is_path())
        .collect()
}

fn visible_of(store: &FileTreeItems) -> Vec<bool> {
    (0..store.len())
        .map(|i| store.get(i).unwrap().info().is_visible())
        .collect()
}

fn collapsed_of(store: &FileTreeItems) -> Vec<bool> {
    (0..store.len())
        .map(|i| store.get(i).unwrap().kind().is_path_collapsed())
        .collect()
}

#[test]
fn flattens_one_path() {
    let store = FileTreeItems::new(&["a/b"], &[]).unwrap();
    assert_eq!(paths_of(&store), vec!["a", "a/b"]);
    assert_eq!(indents_of(&store), vec![0, 1]);
    assert_eq!(dirs_of(&store), vec![true, false]);
    assert_eq!(visible_of(&store), vec![true, true]);
    assert_eq!(store.len(), 2);
    assert_eq!(store.file_count(), 1);
}

#[test]
fn flattens_shared_directories_once() {
    let store = FileTreeItems::new(&["a/b/c", "a/d"], &[]).unwrap();
    assert_eq!(paths_of(&store), vec!["a", "a/b", "a/b/c", "a/d"]);
    assert_eq!(indents_of(&store), vec![0, 1, 2, 1]);
    assert_eq!(dirs_of(&store), vec![true, true, false, false]);
    assert_eq!(store.file_count(), 2);
}

#[test]
fn flattens_top_level_files() {
    let store = FileTreeItems::new(&["x", "y/z", "w"], &[]).unwrap();
    assert_eq!(paths_of(&store), vec!["x", "y", "y/z", "w"]);
    assert_eq!(indents_of(&store), vec![0, 0, 1, 0]);
    assert_eq!(dirs_of(&store), vec![false, true, false, false]);
    assert_eq!(store.file_count(), 3);
}

#[test]
fn counts_characters_not_bytes() {
    let store = FileTreeItems::new(&["\u{e4}\u{e4}/\u{f6}/x"], &[]).unwrap();
    assert_eq!(
        paths_of(&store),
        vec!["\u{e4}\u{e4}", "\u{e4}\u{e4}/\u{f6}", "\u{e4}\u{e4}/\u{f6}/x"]
    );
    assert_eq!(indents_of(&store), vec![0, 1, 2]);
}

#[test]
fn starts_with_named_directories_collapsed() {
    let store = FileTreeItems::new(&["a/b/c", "a/d"], &["a/b"]).unwrap();
    assert_eq!(collapsed_of(&store), vec![false, true, false, false]);
    assert_eq!(visible_of(&store), vec![true, true, false, true]);
    assert_eq!(
        *store.get(1).unwrap().kind(),
        FileTreeItemKind::Path(PathCollapsed(true))
    );
    assert_eq!(
        *store.get(0).unwrap().kind(),
        FileTreeItemKind::Path(PathCollapsed(false))
    );
    assert_eq!(*store.get(2).unwrap().kind(), FileTreeItemKind::File);
}

#[test]
fn collapsed_set_names_files_in_vain() {
    let store = FileTreeItems::new(&["a/b"], &["a/b", "zzz"]).unwrap();
    assert_eq!(collapsed_of(&store), vec![false, false]);
    assert_eq!(visible_of(&store), vec![true, true]);
}

#[test]
fn nested_collapsed_directories_hide_everything_below() {
    let store = FileTreeItems::new(&["a/b/c/d", "a/e"], &["a", "a/b/c"]).unwrap();
    // a, a/b, a/b/c, a/b/c/d, a/e
    assert_eq!(collapsed_of(&store), vec![true, false, true, false, false]);
    assert_eq!(visible_of(&store), vec![true, false, false, false, false]);
}

#[test]
fn empty_list_gives_empty_store() {
    let store = FileTreeItems::new(&[], &[]).unwrap();
    assert_eq!(store.len(), 0);
    assert_eq!(store.file_count(), 0);
    assert!(store.get(0).is_none());
    assert!(store.iterate(0, 10).is_empty());
    let other = FileTreeItems::default();
    assert_eq!(other.len(), 0);
    assert_eq!(other.file_count(), 0);
}

#[test]
fn refuses_malformed_paths() {
    for bad in ["", "/", "/a", "a/", "a//b", "a/b//", "//"] {
        assert_eq!(
            FileTreeItems::new(&[bad], &[]).err(),
            Some(Error::InvalidPath),
            "{:?}",
            bad
        );
        assert_eq!(check_path(bad), Err(Error::InvalidPath));
        assert_eq!(FileTree::new(&["ok", bad], &[]).err(), Some(Error::InvalidPath));
    }
}

#[test]
fn refuses_paths_nested_too_deep() {
    let deepest = vec!["d"; 256].join("/");
    let too_deep = vec!["d"; 257].join("/");
    assert_eq!(check_path(&deepest), Ok(255));
    assert_eq!(check_path(&too_deep), Err(Error::TooDeep));

    let store = FileTreeItems::new(&[deepest.as_str()], &[]).unwrap();
    assert_eq!(store.len(), 256);
    assert_eq!(store.get(255).unwrap().info().indent(), 255);
    assert!(!store.get(255).unwrap().kind().is_path());
    assert_eq!(store.get(254).unwrap().info().indent(), 254);

    assert_eq!(
        FileTreeItems::new(&[too_deep.as_str()], &[]).err(),
        Some(Error::TooDeep)
    );
    assert_eq!(
        FileTree::new(&[too_deep.as_str()], &[]).err(),
        Some(Error::TooDeep)
    );
}

#[test]
fn reports_the_first_fault() {
    let too_deep = vec!["d"; 300].join("/");
    assert_eq!(
        FileTreeItems::new(&["a", "b/", too_deep.as_str()], &[]).err(),
        Some(Error::InvalidPath)
    );
    assert_eq!(
        FileTreeItems::new(&["a", too_deep.as_str(), "b/"], &[]).err(),
        Some(Error::TooDeep)
    );
    // malformed wins over deep within one path
    let both = format!("{}/", too_deep);
    assert_eq!(check_path(&both), Err(Error::InvalidPath));
}

#[test]
fn error_messages() {
    assert_eq!(Error::InvalidPath.message(), "invalid path");
    assert_eq!(Error::TooDeep.message(), "path is nested too deeply");
}

#[test]
fn measures_depth() {
    assert_eq!(check_path("a"), Ok(0));
    assert_eq!(check_path("a/b"), Ok(1));
    assert_eq!(check_path("a/b/c"), Ok(2));
    assert_eq!(check_path("some dir/other.txt"), Ok(1));
}

#[test]
fn compares_texts() {
    assert!(text_eq("", ""));
    assert!(text_eq("a/b", "a/b"));
    assert!(!text_eq("a/b", "a/c"));
    assert!(!text_eq("a/b", "a/b/"));
    assert!(!text_eq("a", ""));
    assert!(text_eq("\u{e4}x", "\u{e4}x"));
    assert!(!text_eq("\u{e4}x", "\u{f6}x"));
}

#[test]
fn collects_texts() {
    let set = text_set_of(&["a", "b/c", "a"]);
    assert_eq!(set.len(), 2);
    assert!(set.contains("b/c"));
    assert!(set.contains("a"));
    assert!(!set.contains("b"));
    assert!(text_set_of(&[]).is_empty());
}

#[test]
fn directories_are_added_once_whatever_the_order() {
    let store = FileTreeItems::new(&["a/b/c", "x/y", "a/b/d", "a/e", "x/z"], &["x"]).unwrap();
    assert_eq!(
        paths_of(&store),
        vec!["a", "a/b", "a/b/c", "x", "x/y", "a/b/d", "a/e", "x/z"]
    );
    assert_eq!(indents_of(&store), vec![0, 1, 2, 0, 1, 2, 1, 1]);
    assert_eq!(store.file_count(), 5);
    assert_eq!(
        collapsed_of(&store),
        vec![false, false, false, true, false, false, false, false]
    );
}

#[test]
fn a_file_does_not_stand_for_a_directory() {
    let store = FileTreeItems::new(&["a", "a/b"], &[]).unwrap();
    assert_eq!(paths_of(&store), vec!["a", "a", "a/b"]);
    assert_eq!(dirs_of(&store), vec![false, true, false]);
}

#[test]
fn collapse_hides_descendants_only() {
    let mut store = FileTreeItems::new(&["a/b/c", "a/b/d/e", "a/f", "g"], &[]).unwrap();
    // 0 a, 1 a/b, 2 a/b/c, 3 a/b/d, 4 a/b/d/e, 5 a/f, 6 g
    assert_eq!(store.len(), 7);
    store.collapse(1, false);
    assert_eq!(
        visible_of(&store),
        vec![true, true, false, false, false, true, true]
    );
    assert_eq!(
        collapsed_of(&store),
        vec![false, true, false, false, false, false, false]
    );
    assert_eq!(store.iterate(0, 10), vec![0, 1, 5, 6]);

    store.expand(1, false);
    assert_eq!(visible_of(&store), vec![true; 7]);
    assert_eq!(collapsed_of(&store), vec![false; 7]);
    assert_eq!(store.iterate(0, 10), vec![0, 1, 2, 3, 4, 5, 6]);
}

#[test]
fn collapse_recursive_marks_directories_below() {
    let mut store = FileTreeItems::new(&["a/b/c", "a/b/d/e", "a/f", "g/h"], &[]).unwrap();
    // 0 a, 1 a/b, 2 a/b/c, 3 a/b/d, 4 a/b/d/e, 5 a/f, 6 g, 7 g/h
    store.collapse(0, true);
    assert_eq!(
        collapsed_of(&store),
        vec![true, true, false, true, false, false, false, false]
    );
    assert_eq!(
        visible_of(&store),
        vec![true, false, false, false, false, false, true, true]
    );

    // one level: the directory below stays collapsed
    store.expand(0, false);
    assert_eq!(
        collapsed_of(&store),
        vec![false, true, false, true, false, false, false, false]
    );
    assert_eq!(
        visible_of(&store),
        vec![true, true, false, false, false, true, true, true]
    );

    store.expand(0, true);
    assert_eq!(collapsed_of(&store), vec![false; 8]);
    assert_eq!(visible_of(&store), vec![true; 8]);
}

#[test]
fn collapse_and_expand_leave_files_alone() {
    let mut store = FileTreeItems::new(&["a/b", "c"], &[]).unwrap();
    store.collapse(1, true);
    store.collapse(2, false);
    store.expand(2, true);
    assert_eq!(collapsed_of(&store), vec![false; 3]);
    assert_eq!(visible_of(&store), vec![true; 3]);
}

#[test]
fn expanding_below_a_collapsed_directory_shows_nothing() {
    let mut store = FileTreeItems::new(&["a/b/c", "a/d"], &["a", "a/b"]).unwrap();
    assert_eq!(visible_of(&store), vec![true, false, false, false]);
    store.expand(1, false);
    assert_eq!(collapsed_of(&store), vec![true, false, false, false]);
    assert_eq!(visible_of(&store), vec![true, false, false, false]);
    store.expand(0, false);
    assert_eq!(visible_of(&store), vec![true, true, true, true]);
}

#[test]
fn show_element_expands_the_directories_above() {
    let mut store =
        FileTreeItems::new(&["a/b/c", "a/d/e", "f/g"], &["a", "a/b", "a/d", "f"]).unwrap();
    // 0 a, 1 a/b, 2 a/b/c, 3 a/d, 4 a/d/e, 5 f, 6 f/g
    assert_eq!(
        visible_of(&store),
        vec![true, false, false, false, false, true, false]
    );
    store.show_element(2);
    assert_eq!(
        collapsed_of(&store),
        vec![false, false, false, true, false, true, false]
    );
    assert_eq!(
        visible_of(&store),
        vec![true, true, true, true, false, true, false]
    );
    assert_eq!(store.file_count(), 3);
}

#[test]
fn iterate_is_bounded_and_starts_where_told() {
    let mut store = FileTreeItems::new(&["a/b/c", "a/b/c2", "a/d", "a/e"], &[]).unwrap();
    assert_eq!(store.iterate(0, 3), vec![0, 1, 2]);
    assert_eq!(store.iterate(2, 3), vec![2, 3, 4]);
    assert_eq!(store.iterate(4, 3), vec![4, 5]);
    assert_eq!(store.iterate(6, 3), Vec::<usize>::new());
    assert_eq!(store.iterate(100, 3), Vec::<usize>::new());
    assert_eq!(store.iterate(0, 0), Vec::<usize>::new());
    store.collapse(1, false);
    assert_eq!(store.iterate(2, 2), vec![4, 5]);
    assert!(store.is_visible_at(1));
    assert!(!store.is_visible_at(2));
    assert!(!store.is_visible_at(6));
}
