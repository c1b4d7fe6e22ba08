//! Keeping a cursor valid when the buffer changes under it: after an edit
//! that someone else made, and after the whole buffer was exchanged for
//! another revision.

use crate::cursor::{Cursor, CursorView};
use crate::diff::OpaqueDiff;
use crate::graphemes::{
    boundary_after, boundary_at, boundary_before, clamp, display_width, grapheme_boundary_at,
    is_boundary, lemma_boundary_after, lemma_boundary_before, next_grapheme_boundary,
    prev_grapheme_boundary, width,
};
use crate::movement::move_to_start_of_buffer;
use crate::text::{
    lemma_line_begin, lemma_line_of_in_range, lemma_line_start, line_begin, line_count, line_of,
    line_start, minus, saturated, text_of,
};
use ropey::Rope;
use vstd::prelude::*;

verus! {

/// The cursor `cursor` brought in line with the text `s`, which an edit
/// recorded as `diff` has made.
///
/// An edit whose region starts at or behind the end of the cursor leaves the
/// cursor as it is. An edit whose region ends at or in front of the start of
/// the cursor moves both ends of the cursor by its net change, each to the
/// boundary at the place it comes to or else to the nearest in front of it.
/// Any other edit overlaps with the cursor, which then snaps to the cluster
/// in front of its end. Places past the end of `s` count as the end of `s`,
/// and an end of the cursor in front of its start as the start. Anchor and
/// column stay.
pub open spec fn reconciled(cursor: CursorView, s: Seq<char>, diff: OpaqueDiff) -> CursorView {
    if diff.char_index >= cursor.end {
        cursor
    } else if diff.char_index + diff.old_char_length <= cursor.start {
        let start = cursor.start + diff.net_change();
        let end = if cursor.end >= cursor.start {
            cursor.end + diff.net_change()
        } else {
            start
        };
        CursorView {
            start: boundary_at(s, clamp(s, start)),
            end: boundary_at(s, clamp(s, end)),
            ..cursor
        }
    } else {
        let start = boundary_before(s, clamp(s, cursor.end));
        CursorView { start, end: boundary_after(s, start), ..cursor }
    }
}

/// The boundary at a place, or else the nearest in front of it, does not
/// come to lie behind that of a later place.
pub proof fn lemma_boundary_at_monotone(s: Seq<char>, i: int, j: int)
    requires
        0 <= i <= j <= s.len(),
    ensures
        0 <= boundary_at(s, i) <= boundary_at(s, j) <= j,
        is_boundary(s, boundary_at(s, i)),
        is_boundary(s, boundary_at(s, j)),
{
    lemma_boundary_before(s, i);
    lemma_boundary_before(s, j);
}

/// The cursor that takes the place of `cursor` when the text `current` is
/// exchanged for the text `new`.
///
/// It keeps the line of the old cursor's start and its offset in that line as
/// far as `new` has them: the line is clamped to the last line of `new`, the
/// offset to the last character of that line. It ends at the boundary behind
/// that place and starts at the boundary in front of its end.
pub open spec fn synced(cursor: CursorView, current: Seq<char>, new: Seq<char>) -> CursorView {
    let at = clamp(current, cursor.start);
    let line = line_of(current, at);
    let offset = at - line_begin(current, at);
    let new_line = if line <= line_count(new) - 1 {
        line
    } else {
        (line_count(new) - 1) as nat
    };
    let line_length = line_start(new, new_line + 1) - line_start(new, new_line);
    let new_offset = if offset <= minus(line_length, 1) {
        offset
    } else {
        minus(line_length, 1)
    };
    let end = boundary_after(new, line_start(new, new_line) + new_offset);
    CursorView::fresh(boundary_before(new, end), end)
}

/// A synced cursor lies inside the new text, on grapheme-cluster boundaries.
pub proof fn lemma_synced_aligned(cursor: CursorView, current: Seq<char>, new: Seq<char>)
    ensures
        synced(cursor, current, new).aligned(new),
        synced(cursor, current, new).in_bounds(new),
{
    let at = clamp(current, cursor.start);
    let line = line_of(current, at);
    let new_line = if line <= line_count(new) - 1 {
        line
    } else {
        (line_count(new) - 1) as nat
    };
    lemma_line_begin(current, at);
    lemma_line_start(new, new_line);
    lemma_line_start(new, new_line + 1);
    let line_length = line_start(new, new_line + 1) - line_start(new, new_line);
    let offset = at - line_begin(current, at);
    let new_offset = if offset <= minus(line_length, 1) {
        offset
    } else {
        minus(line_length, 1)
    };
    lemma_boundary_after(new, line_start(new, new_line) + new_offset);
    let end = boundary_after(new, line_start(new, new_line) + new_offset);
    lemma_boundary_before(new, end);
}

impl Cursor {
    /// The display width of the text between the start of the cursor's line
    /// and the start of the cursor, which is first clamped into the buffer: the
    /// column that the cursor is shown at. A width that does not fit the
    /// result type is given as the largest value of that type.
    pub fn column_offset(&self, text: &Rope) -> (column: usize)
        ensures
            column == ({
                let s = text_of(*text);
                let at = clamp(s, self@.start);
                saturated(display_width(s.subrange(line_begin(s, at), at)) as int)
            }),
    {
        let len: usize = text.len_chars();
        let at: usize = if self.start() > len {
            len
        } else {
            self.start()
        };
        proof {
            lemma_line_of_in_range(text_of(*text), at as int);
            lemma_line_begin(text_of(*text), at as int);
        }
        let char_line_start: usize = text.line_to_char(text.char_to_line(at));
        width(text, char_line_start, at)
    }

    /// Brings the cursor in line with `new_text` after an edit that the
    /// cursor did not make itself and that `diff` records.
    pub fn reconcile(&mut self, new_text: &Rope, diff: &OpaqueDiff)
        ensures
            final(self)@ == reconciled(old(self)@, text_of(*new_text), *diff),
            diff.char_index < old(self)@.end ==> final(self)@.aligned(text_of(*new_text)),
    {
        let ghost s = text_of(*new_text);
        let old_char_length: usize = diff.old_char_length;
        let new_char_length: usize = diff.new_char_length;

        // The edit starts behind the end of the cursor: nothing to do
        if diff.char_index >= self.end() {
            return ;
        }
        let len: usize = new_text.len_chars();

        // The edit ends in front of the start of the cursor
        if old_char_length <= self.start() && diff.char_index <= self.start() - old_char_length {
            let span: usize = self.end().saturating_sub(self.start());
            let start: usize = if old_char_length > new_char_length {
                self.start() - (old_char_length - new_char_length)
            } else {
                self.start().saturating_add(new_char_length - old_char_length)
            };
            let start: usize = if start > len {
                len
            } else {
                start
            };
            let end: usize = if span > len - start {
                len
            } else {
                start + span
            };
            proof {
                lemma_boundary_at_monotone(s, start as int, end as int);
            }
            let grapheme_start: usize = grapheme_boundary_at(new_text, start);
            let grapheme_end: usize = grapheme_boundary_at(new_text, end);
            self.set_range(grapheme_start, grapheme_end);
            return ;
        }
        // Otherwise the edit overlaps with the cursor

        let clamped: usize = if self.end() > len {
            len
        } else {
            self.end()
        };
        proof {
            lemma_boundary_before(s, clamped as int);
            lemma_boundary_after(s, boundary_before(s, clamped as int));
        }
        let grapheme_start: usize = prev_grapheme_boundary(new_text, clamped);
        let grapheme_end: usize = next_grapheme_boundary(new_text, grapheme_start);
        self.set_range(grapheme_start, grapheme_end);
    }

    /// Selects the whole buffer: the cursor goes to the first cluster and the
    /// anchor behind the last character.
    pub fn select_all(&mut self, text: &Rope)
        ensures
            final(self)@ == (CursorView {
                start: 0,
                end: boundary_after(text_of(*text), 0),
                anchor: Some(text_of(*text).len() as int),
                column: None,
            }),
            final(self)@.aligned(text_of(*text)),
            final(self)@.in_bounds(text_of(*text)),
    {
        move_to_start_of_buffer(text, self);
        self.set_anchor(text.len_chars());
    }

    /// Replaces the cursor by one that is valid in `new_text` and lies as
    /// close as `new_text` allows to where the cursor was in `current_text`, by
    /// line and by offset in the line.
    pub fn sync(&mut self, current_text: &Rope, new_text: &Rope)
        ensures
            final(self)@ == synced(old(self)@, text_of(*current_text), text_of(*new_text)),
            final(self)@.aligned(text_of(*new_text)),
            final(self)@.in_bounds(text_of(*new_text)),
    {
        let ghost current = text_of(*current_text);
        let ghost new = text_of(*new_text);
        proof {
            lemma_synced_aligned(self@, current, new);
        }
        let current_len: usize = current_text.len_chars();
        let at: usize = if self.start() > current_len {
            current_len
        } else {
            self.start()
        };
        proof {
            lemma_line_of_in_range(current, at as int);
            lemma_line_begin(current, at as int);
        }
        let current_line: usize = current_text.char_to_line(at);
        let current_line_offset: usize = at - current_text.line_to_char(current_line);

        let last_line: usize = new_text.len_lines().saturating_sub(1);
        let new_line: usize = if current_line < last_line {
            current_line
        } else {
            last_line
        };
        proof {
            lemma_line_start(new, new_line as nat);
            lemma_line_start(new, (new_line + 1) as nat);
        }
        let new_line_start: usize = new_text.line_to_char(new_line);
        let new_line_length: usize = new_text.line_to_char(new_line + 1) - new_line_start;
        let last_offset: usize = new_line_length.saturating_sub(1);
        let new_line_offset: usize = if current_line_offset < last_offset {
            current_line_offset
        } else {
            last_offset
        };
        let grapheme_end: usize = next_grapheme_boundary(
            new_text,
            new_line_start + new_line_offset,
        );
        let grapheme_start: usize = prev_grapheme_boundary(new_text, grapheme_end);
        *self = Cursor::with_range(grapheme_start..grapheme_end);
    }
}

} // verus!
