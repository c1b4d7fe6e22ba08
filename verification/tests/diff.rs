use ropey::Rope;
use zee_edit::{DeleteOperation, OpaqueDiff};

#[test]
fn a_diff_keeps_its_fields() {
    let diff = OpaqueDiff::new(1, 2, 3, 4, 5, 6);
    assert_eq!(diff.byte_index, 1);
    assert_eq!(diff.old_byte_length, 2);
    assert_eq!(diff.new_byte_length, 3);
    assert_eq!(diff.char_index, 4);
    assert_eq!(diff.old_char_length, 5);
    assert_eq!(diff.new_char_length, 6);
    assert!(!diff.is_empty());
}

#[test]
fn the_empty_diff_has_all_lengths_at_zero() {
    let diff = OpaqueDiff::empty();
    assert_eq!(diff, OpaqueDiff::new(0, 0, 0, 0, 0, 0));
    assert!(diff.is_empty());
    // a diff with a place but no lengths says that nothing changed too
    assert!(OpaqueDiff::new(7, 0, 0, 3, 0, 0).is_empty());
    assert!(!OpaqueDiff::new(0, 0, 1, 0, 0, 1).is_empty());
}

#[test]
fn reversing_a_diff_exchanges_old_and_new() {
    let diff = OpaqueDiff::new(1, 2, 3, 4, 5, 6);
    assert_eq!(diff.reverse(), OpaqueDiff::new(1, 3, 2, 4, 6, 5));
    assert_eq!(diff.reverse().reverse(), diff);
}

#[test]
fn the_empty_delete_operation_deleted_nothing() {
    let operation = DeleteOperation::empty();
    assert!(operation.diff.is_empty());
    assert_eq!(operation.diff, OpaqueDiff::empty());
    assert_eq!(operation.deleted, Rope::from(""));
}
