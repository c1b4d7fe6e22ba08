//! The deletions a cursor offers. Each takes a stretch of characters out of
//! the buffer, hands back what it took together with the record of the edit,
//! and leaves a fresh cursor at the place of the deletion.

use crate::cursor::{Cursor, CursorView};
use crate::diff::{DeleteOperation, OpaqueDiff};
use crate::graphemes::{boundary_before, clamp, lemma_boundary_before, prev_grapheme_boundary};
use crate::insert::is_insertion;
use crate::movement::{move_horizontally, moved_horizontally, Direction};
use crate::text::{
    byte_len, byte_offset, copy_range, lemma_byte_offset_split, lemma_line_of_in_range,
    lemma_line_start, line_count, line_of, line_start, remove_range, text_of, without_range,
};
use ropey::Rope;
use vstd::prelude::*;

verus! {

/// Whether `operation` is the result of taking `[from, to)` out of the text
/// `before`, which left the text `after`: the deleted text is that stretch,
/// and the diff says where it was and how long, in characters and in bytes.
pub open spec fn is_deletion(
    operation: DeleteOperation,
    before: Seq<char>,
    after: Seq<char>,
    from: int,
    to: int,
) -> bool {
    &&& 0 <= from <= to <= before.len()
    &&& after == without_range(before, from, to)
    &&& text_of(operation.deleted) == before.subrange(from, to)
    &&& operation.diff.char_index == from
    &&& operation.diff.old_char_length == to - from
    &&& operation.diff.new_char_length == 0
    &&& operation.diff.byte_index == byte_offset(before, from)
    &&& operation.diff.old_byte_length == byte_len(before.subrange(from, to))
    &&& operation.diff.new_byte_length == 0
}

/// Whether a deletion did nothing at all: the buffer and the cursor are as
/// they were, and the result says so.
pub open spec fn nothing_deleted(
    operation: DeleteOperation,
    before: Seq<char>,
    after: Seq<char>,
    cursor_before: CursorView,
    cursor_after: CursorView,
) -> bool {
    &&& operation.is_noop()
    &&& after == before
    &&& cursor_after == cursor_before
}

/// The diff of a deletion is an exact record of it, and its net change is
/// the change of the buffer's length.
pub proof fn lemma_deletion_described(
    operation: DeleteOperation,
    before: Seq<char>,
    after: Seq<char>,
    from: int,
    to: int,
)
    requires
        is_deletion(operation, before, after, from, to),
    ensures
        operation.diff.describes(before, after),
        operation.diff.net_change() == after.len() - before.len(),
{
    assert(after.subrange(0, from) =~= before.subrange(0, from));
    assert(after.subrange(from, after.len() as int) =~= before.subrange(to, before.len() as int));
    assert(after.subrange(from, from) =~= Seq::<char>::empty());
}

/// A deletion followed by the insertion of the deleted text at the place of
/// the deletion gives the text as it was before the deletion.
pub proof fn lemma_delete_then_reinsert(
    operation: DeleteOperation,
    before: Seq<char>,
    after: Seq<char>,
    from: int,
    to: int,
    diff: OpaqueDiff,
    again: Seq<char>,
)
    requires
        is_deletion(operation, before, after, from, to),
        is_insertion(diff, after, again, from, text_of(operation.deleted)),
    ensures
        again == before,
{
    assert(after.subrange(0, from) =~= before.subrange(0, from));
    assert(after.subrange(from, after.len() as int) =~= before.subrange(to, before.len() as int));
    assert(before.subrange(0, from) + before.subrange(from, to) + before.subrange(
        to,
        before.len() as int,
    ) =~= before);
}

/// Takes `[from, to)` out of `text` and gives the result of that deletion.
fn take_out(text: &mut Rope, from: usize, to: usize) -> (operation: DeleteOperation)
    requires
        from <= to <= text_of(*old(text)).len(),
    ensures
        is_deletion(
            operation,
            text_of(*old(text)),
            text_of(*final(text)),
            from as int,
            to as int,
        ),
{
    proof {
        lemma_byte_offset_split(text_of(*text), from as int, to as int);
    }
    let deleted = copy_range(text, from, to);
    let byte_from: usize = text.char_to_byte(from);
    let byte_to: usize = text.char_to_byte(to);
    let diff = OpaqueDiff::new(byte_from, byte_to - byte_from, 0, from, to - from, 0);
    remove_range(text, from, to);
    DeleteOperation { diff, deleted }
}

impl Cursor {
    /// Deletes `length` characters from `index` on. Both ends of that stretch
    /// are first clamped into the buffer. If nothing is left to delete, nothing
    /// happens. Otherwise the cursor is replaced by a fresh one on the cluster
    /// that now holds the place of the deletion.
    pub fn delete_forward_from_index(
        &mut self,
        text: &mut Rope,
        index: usize,
        length: usize,
    ) -> (operation: DeleteOperation)
        ensures
            ({
                let before = text_of(*old(text));
                let after = text_of(*final(text));
                let from = clamp(before, index as int);
                let to = clamp(before, index + length);
                if from == to {
                    nothing_deleted(operation, before, after, old(self)@, final(self)@)
                } else {
                    &&& is_deletion(operation, before, after, from, to)
                    &&& final(self)@ == CursorView::at(after, from)
                    &&& final(self)@.aligned(after)
                }
            }),
            operation.diff.describes(text_of(*old(text)), text_of(*final(text))),
            operation.diff.net_change() == text_of(*final(text)).len() - text_of(*old(text)).len(),
    {
        let ghost before = text_of(*text);
        let len: usize = text.len_chars();
        let from: usize = if index > len {
            len
        } else {
            index
        };
        let to: usize = if length > len - from {
            len
        } else {
            from + length
        };
        if from == to {
            let operation = DeleteOperation::empty();
            proof {
                assert(before.subrange(0, 0) =~= Seq::<char>::empty());
                assert(before.subrange(0, before.len() as int) =~= before);
                assert(byte_len(Seq::<char>::empty()) == 0);
            }
            return operation;
        }
        let operation = take_out(text, from, to);
        proof {
            lemma_deletion_described(operation, before, text_of(*text), from as int, to as int);
        }
        *self = Cursor::at(text, from);
        operation
    }

    /// Deletes the characters that the cursor covers. A cursor that covers
    /// nothing deletes nothing.
    pub fn delete_forward(&mut self, text: &mut Rope) -> (operation: DeleteOperation)
        ensures
            ({
                let before = text_of(*old(text));
                let after = text_of(*final(text));
                let from = clamp(before, old(self)@.start);
                let to = clamp(
                    before,
                    if old(self)@.end > old(self)@.start {
                        old(self)@.end
                    } else {
                        old(self)@.start
                    },
                );
                if from == to {
                    nothing_deleted(operation, before, after, old(self)@, final(self)@)
                } else {
                    &&& is_deletion(operation, before, after, from, to)
                    &&& final(self)@ == CursorView::at(after, from)
                    &&& final(self)@.aligned(after)
                }
            }),
            operation.diff.describes(text_of(*old(text)), text_of(*final(text))),
            operation.diff.net_change() == text_of(*final(text)).len() - text_of(*old(text)).len(),
            old(self)@.in_bounds(text_of(*old(text))) ==> final(self)@.in_bounds(
                text_of(*final(text)),
            ),
    {
        let index: usize = self.start();
        let length: usize = self.end().saturating_sub(self.start());
        self.delete_forward_from_index(text, index, length)
    }

    /// Deletes the grapheme cluster in front of the cursor: the cursor goes
    /// back by one cluster and deletes what it then covers. At the start of the
    /// buffer nothing happens; in an empty buffer the cursor goes to the start
    /// and nothing else happens.
    pub fn delete_backward(&mut self, text: &mut Rope) -> (operation: DeleteOperation)
        ensures
            ({
                let before = text_of(*old(text));
                let after = text_of(*final(text));
                let moved = moved_horizontally(old(self)@, before, Direction::Backward, 1);
                if old(self)@.start <= 0 {
                    nothing_deleted(operation, before, after, old(self)@, final(self)@)
                } else if moved.start == moved.end {
                    nothing_deleted(operation, before, after, moved, final(self)@)
                } else {
                    &&& is_deletion(operation, before, after, moved.start, moved.end)
                    &&& final(self)@ == CursorView::at(after, moved.start)
                    &&& final(self)@.aligned(after)
                }
            }),
            operation.diff.describes(text_of(*old(text)), text_of(*final(text))),
            operation.diff.net_change() == text_of(*final(text)).len() - text_of(*old(text)).len(),
            old(self)@.in_bounds(text_of(*old(text))) ==> final(self)@.in_bounds(
                text_of(*final(text)),
            ),
    {
        if self.start() > 0 {
            move_horizontally(text, self, Direction::Backward, 1);
            self.delete_forward(text)
        } else {
            let operation = DeleteOperation::empty();
            proof {
                let before = text_of(*text);
                assert(before.subrange(0, 0) =~= Seq::<char>::empty());
                assert(before.subrange(0, before.len() as int) =~= before);
                assert(byte_len(Seq::<char>::empty()) == 0);
            }
            operation
        }
    }

    /// Deletes the line that the cursor starts on, with the line break that
    /// ends it. The cursor is replaced by a fresh one at the start of the line
    /// that took the deleted line's place, or of the last line that ends in a
    /// line break if the deleted line was the last. In an empty buffer nothing
    /// happens.
    pub fn delete_line(&mut self, text: &mut Rope) -> (operation: DeleteOperation)
        ensures
            ({
                let before = text_of(*old(text));
                let after = text_of(*final(text));
                let line = line_of(before, clamp(before, old(self)@.start));
                if before.len() == 0 {
                    nothing_deleted(operation, before, after, old(self)@, final(self)@)
                } else {
                    let last = if line_count(after) >= 2 {
                        (line_count(after) - 2) as nat
                    } else {
                        0nat
                    };
                    let at = line_start(
                        after,
                        if line <= last {
                            line
                        } else {
                            last
                        },
                    );
                    &&& is_deletion(
                        operation,
                        before,
                        after,
                        line_start(before, line),
                        line_start(before, line + 1),
                    )
                    &&& final(self)@ == CursorView::at(after, at)
                    &&& final(self)@.aligned(after)
                }
            }),
            operation.diff.describes(text_of(*old(text)), text_of(*final(text))),
            operation.diff.net_change() == text_of(*final(text)).len() - text_of(*old(text)).len(),
            old(self)@.in_bounds(text_of(*old(text))) ==> final(self)@.in_bounds(
                text_of(*final(text)),
            ),
    {
        let ghost before = text_of(*text);
        let len: usize = text.len_chars();
        if len == 0 {
            let operation = DeleteOperation::empty();
            proof {
                assert(before.subrange(0, 0) =~= Seq::<char>::empty());
                assert(before.subrange(0, before.len() as int) =~= before);
                assert(byte_len(Seq::<char>::empty()) == 0);
            }
            return operation;
        }
        let at: usize = if self.start() > len {
            len
        } else {
            self.start()
        };
        // a line number is below the number of lines, which is a `usize`
        let _lines: usize = text.len_lines();
        let line_index: usize = text.char_to_line(at);
        proof {
            lemma_line_of_in_range(before, at as int);
            lemma_line_start(before, line_index as nat);
            lemma_line_start(before, (line_index + 1) as nat);
        }
        let delete_range_start: usize = text.line_to_char(line_index);
        let delete_range_end: usize = text.line_to_char(line_index + 1);
        let operation = take_out(text, delete_range_start, delete_range_end);
        proof {
            lemma_deletion_described(
                operation,
                before,
                text_of(*text),
                delete_range_start as int,
                delete_range_end as int,
            );
        }
        let last: usize = text.len_lines().saturating_sub(2);
        let line: usize = if line_index < last {
            line_index
        } else {
            last
        };
        proof {
            lemma_line_start(text_of(*text), line as nat);
        }
        *self = Cursor::at(text, text.line_to_char(line));
        operation
    }

    /// Deletes the selected span, both ends of which are first clamped into
    /// the buffer. The cursor is replaced by a fresh one on the cluster that
    /// now holds the place where the selection began, or on the last cluster
    /// of the buffer if that comes first. In an empty buffer nothing happens.
    pub fn delete_selection(&mut self, text: &mut Rope) -> (operation: DeleteOperation)
        ensures
            ({
                let before = text_of(*old(text));
                let after = text_of(*final(text));
                let (from, to) = old(self)@.selection_in(before);
                if before.len() == 0 {
                    nothing_deleted(operation, before, after, old(self)@, final(self)@)
                } else {
                    let last = boundary_before(after, after.len() as int);
                    let at = if from <= last {
                        from
                    } else {
                        last
                    };
                    &&& is_deletion(operation, before, after, from, to)
                    &&& final(self)@ == CursorView::at(after, at)
                    &&& final(self)@.aligned(after)
                }
            }),
            operation.diff.describes(text_of(*old(text)), text_of(*final(text))),
            operation.diff.net_change() == text_of(*final(text)).len() - text_of(*old(text)).len(),
            old(self)@.in_bounds(text_of(*old(text))) ==> final(self)@.in_bounds(
                text_of(*final(text)),
            ),
    {
        let ghost before = text_of(*text);
        let len: usize = text.len_chars();
        if len == 0 {
            let operation = DeleteOperation::empty();
            proof {
                assert(before.subrange(0, 0) =~= Seq::<char>::empty());
                assert(before.subrange(0, before.len() as int) =~= before);
                assert(byte_len(Seq::<char>::empty()) == 0);
            }
            return operation;
        }
        let (from, to) = self.selection_in(text);
        let operation = take_out(text, from, to);
        proof {
            lemma_deletion_described(operation, before, text_of(*text), from as int, to as int);
            lemma_boundary_before(text_of(*text), text_of(*text).len() as int);
        }
        let last: usize = prev_grapheme_boundary(text, text.len_chars());
        *self = Cursor::at(
            text,
            if from < last {
                from
            } else {
                last
            },
        );
        operation
    }
}

} // verus!
