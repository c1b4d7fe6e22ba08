use ropey::Rope;
use zee_edit::tree::EditTree;
use zee_edit::Cursor;

fn commit_text(tree: &mut EditTree, text: &str) {
    let staged = tree.staged_mut();
    let len = staged.len_chars();
    staged.remove(0..len);
    staged.insert(0, text);
    tree.commit();
}

#[test]
fn a_new_tree_has_one_revision() {
    let tree = EditTree::new(Rope::from("root"));
    assert_eq!(tree.len(), 1);
    assert_eq!(tree.head(), 0);
    assert_eq!(*tree.staged(), "root");
    assert_eq!(*tree.text(0).unwrap(), "root");
    assert_eq!(tree.parent(0), None);
    assert_eq!(tree.children(0), Vec::<usize>::new());
    assert_eq!(tree.preferred_child(0), None);
}

#[test]
fn queries_about_revisions_that_do_not_exist() {
    let tree = EditTree::new(Rope::from("root"));
    assert!(tree.text(1).is_none());
    assert_eq!(tree.parent(1), None);
    assert_eq!(tree.children(7), Vec::<usize>::new());
    assert_eq!(tree.preferred_child(7), None);
}

#[test]
fn a_commit_adds_a_child_and_makes_it_current() {
    let mut tree = EditTree::new(Rope::from("root"));
    let mut cursor = Cursor::new();
    cursor.insert_char(tree.staged_mut(), 'x');
    // the edit is staged, the revision is not yet made
    assert_eq!(*tree.staged(), "xroot");
    assert_eq!(tree.len(), 1);
    assert_eq!(*tree.text(0).unwrap(), "root");

    tree.commit();
    assert_eq!(tree.len(), 2);
    assert_eq!(tree.head(), 1);
    assert_eq!(*tree.staged(), "xroot");
    assert_eq!(*tree.text(0).unwrap(), "root");
    assert_eq!(*tree.text(1).unwrap(), "xroot");
    assert_eq!(tree.parent(1), Some(0));
    assert_eq!(tree.children(0), vec![1]);
    assert_eq!(tree.preferred_child(0), Some(1));
    assert_eq!(tree.children(1), Vec::<usize>::new());
}

#[test]
fn undo_after_commit_and_redo_after_undo_restore_the_bytes() {
    let before = "before \u{e9}豈\r\n";
    let after = "after \u{1F1F7}\u{1F1F8}\n\tend";
    let mut tree = EditTree::new(Rope::from(before));
    commit_text(&mut tree, after);

    assert!(tree.undo());
    assert_eq!(tree.head(), 0);
    assert_eq!(tree.staged().to_string().as_bytes(), before.as_bytes());

    assert!(tree.redo());
    assert_eq!(tree.head(), 1);
    assert_eq!(tree.staged().to_string().as_bytes(), after.as_bytes());
}

#[test]
fn undo_at_the_root_and_redo_at_a_leaf_do_nothing() {
    let mut tree = EditTree::new(Rope::from("root"));
    assert!(!tree.undo());
    assert!(!tree.redo());
    assert_eq!(tree.head(), 0);
    assert_eq!(*tree.staged(), "root");
    commit_text(&mut tree, "leaf");
    assert!(!tree.redo());
    assert_eq!(tree.head(), 1);
    assert_eq!(*tree.staged(), "leaf");
    tree.previous_child_revision();
    tree.next_child_revision();
    assert_eq!(tree.head(), 1);
    assert_eq!(tree.preferred_child(1), None);
}

#[test]
fn undo_drops_what_was_staged_but_not_committed() {
    let mut tree = EditTree::new(Rope::from("root"));
    commit_text(&mut tree, "one");
    tree.staged_mut().insert(0, "draft ");
    assert!(tree.undo());
    assert_eq!(*tree.staged(), "root");
    assert!(tree.redo());
    assert_eq!(*tree.staged(), "one");
    assert_eq!(tree.len(), 2);
}

#[test]
fn redo_prefers_the_youngest_branch() {
    let mut tree = EditTree::new(Rope::from("root"));
    commit_text(&mut tree, "A");
    assert!(tree.undo());
    commit_text(&mut tree, "B");
    assert_eq!(tree.children(0), vec![1, 2]);
    assert_eq!(tree.parent(1), Some(0));
    assert_eq!(tree.parent(2), Some(0));
    assert!(tree.undo());
    assert_eq!(tree.preferred_child(0), Some(2));
    assert!(tree.redo());
    assert_eq!(*tree.staged(), "B");
}

#[test]
fn the_previous_child_brings_redo_back_to_the_first_branch() {
    let mut tree = EditTree::new(Rope::from("root"));
    commit_text(&mut tree, "A");
    assert!(tree.undo());
    commit_text(&mut tree, "B");
    // back at the revision that both were made from
    assert!(tree.undo());
    tree.previous_child_revision();
    assert_eq!(tree.head(), 0);
    assert_eq!(*tree.staged(), "root");
    assert!(tree.redo());
    assert_eq!(tree.head(), 1);
    assert_eq!(*tree.staged(), "A");
    // nothing was lost
    assert_eq!(tree.len(), 3);
    assert_eq!(*tree.text(2).unwrap(), "B");
}

#[test]
fn at_a_leaf_the_choice_of_branch_changes_nothing() {
    let mut tree = EditTree::new(Rope::from("root"));
    commit_text(&mut tree, "A");
    assert!(tree.undo());
    commit_text(&mut tree, "B");
    // the current revision is B, which has no children
    tree.previous_child_revision();
    assert!(!tree.redo());
    assert_eq!(tree.head(), 2);
    assert_eq!(*tree.staged(), "B");
    assert_eq!(tree.preferred_child(0), Some(2));
}

#[test]
fn the_choice_of_branch_goes_round_the_children() {
    let mut tree = EditTree::new(Rope::from("root"));
    for text in ["A", "B", "C"] {
        commit_text(&mut tree, text);
        assert!(tree.undo());
    }
    assert_eq!(tree.children(0), vec![1, 2, 3]);
    assert_eq!(tree.preferred_child(0), Some(3));
    tree.next_child_revision();
    assert_eq!(tree.preferred_child(0), Some(1));
    tree.next_child_revision();
    assert_eq!(tree.preferred_child(0), Some(2));
    tree.previous_child_revision();
    assert_eq!(tree.preferred_child(0), Some(1));
    tree.previous_child_revision();
    assert_eq!(tree.preferred_child(0), Some(3));
    tree.previous_child_revision();
    assert_eq!(tree.preferred_child(0), Some(2));
    // neither the current revision nor the staged buffer nor the shape moved
    assert_eq!(tree.head(), 0);
    assert_eq!(*tree.staged(), "root");
    assert_eq!(tree.children(0), vec![1, 2, 3]);
    assert!(tree.redo());
    assert_eq!(*tree.staged(), "B");
}

#[test]
fn redo_remembers_the_branch_it_came_from() {
    let mut tree = EditTree::new(Rope::from("root"));
    commit_text(&mut tree, "A");
    commit_text(&mut tree, "A1");
    assert!(tree.undo());
    assert!(tree.undo());
    commit_text(&mut tree, "B");
    assert!(tree.undo());
    tree.previous_child_revision();
    assert!(tree.redo());
    assert!(tree.redo());
    assert_eq!(*tree.staged(), "A1");
    assert_eq!(tree.head(), 2);
    assert_eq!(tree.parent(2), Some(1));
}

#[test]
fn undo_and_redo_bring_the_cursor_over() {
    let mut tree = EditTree::new(Rope::from("one\ntwo\n"));
    commit_text(&mut tree, "one\ntwo and more\nthree\n");
    let mut cursor = Cursor::with_range(20..21);
    cursor.begin_selection();

    assert!(tree.undo_with(&mut cursor));
    assert_eq!(*tree.staged(), "one\ntwo\n");
    // line 2 has become the empty last line
    assert_eq!(cursor, Cursor::with_range(7..8));

    assert!(tree.redo_with(&mut cursor));
    assert_eq!(*tree.staged(), "one\ntwo and more\nthree\n");
    assert_eq!(cursor, Cursor::with_range(7..8));

    // where there is nowhere to go the cursor stays as it is
    let mut cursor = Cursor::with_range(40..41);
    assert!(!tree.redo_with(&mut cursor));
    assert_eq!(cursor, Cursor::with_range(40..41));
}
