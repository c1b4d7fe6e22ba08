//! The cursor: a position in a text buffer, with an optional selection
//! anchor and an optional remembered column.

use crate::graphemes::{
    boundary_after, clamp, cluster_at, grapheme_at, is_boundary, lemma_cluster_at,
    prev_grapheme_boundary, CharIndex,
};
use crate::text::text_of;
use ropey::Rope;
use std::ops::Range;
use vstd::prelude::*;

verus! {

/// A user's cursor in a text buffer.
///
/// The cursor covers the characters of `[start, end)`: the grapheme cluster
/// under it, or nothing when it is a caret between two clusters. A selection
/// reaches from the anchor, where it was begun, to the start of the cursor.
#[derive(Clone, Debug, PartialEq, Eq)]
pub struct Cursor {
    start: CharIndex,
    end: CharIndex,
    selection: Option<CharIndex>,
    visual_horizontal_offset: Option<usize>,
}

/// What a cursor is, as plain numbers.
pub ghost struct CursorView {
    /// Where the cursor starts.
    pub start: int,
    /// Where the cursor ends.
    pub end: int,
    /// Where the selection was begun, if one is in progress.
    pub anchor: Option<int>,
    /// The column that vertical movement aims for, if one is remembered.
    pub column: Option<int>,
}

impl CursorView {
    /// The selected span as `(from, to)`: from the anchor to the start of the
    /// cursor, whichever way round they lie; the cursor's own range when there
    /// is no anchor or the anchor is the start of the cursor.
    pub open spec fn selection(self) -> (int, int) {
        match self.anchor {
            Some(anchor) if anchor > self.start => (self.start, anchor),
            Some(anchor) if anchor < self.start => (anchor, self.start),
            _ => (self.start, self.end),
        }
    }

    /// The selected span with both ends clamped into the text `s`, and its
    /// end not in front of its start.
    pub open spec fn selection_in(self, s: Seq<char>) -> (int, int) {
        let from = crate::graphemes::clamp(s, self.selection().0);
        let to = crate::graphemes::clamp(s, self.selection().1);
        (
            from,
            if to >= from {
                to
            } else {
                from
            },
        )
    }

    /// Whether the cursor's range lies inside the text `s`.
    pub open spec fn range_in_bounds(self, s: Seq<char>) -> bool {
        0 <= self.start <= self.end <= s.len()
    }

    /// Whether the cursor's range and its anchor lie inside the text `s`.
    pub open spec fn in_bounds(self, s: Seq<char>) -> bool {
        &&& self.range_in_bounds(s)
        &&& self.anchor matches Some(anchor) ==> 0 <= anchor <= s.len()
    }

    /// Whether the cursor's range lies inside the text `s` and both its ends
    /// are grapheme-cluster boundaries of `s`.
    pub open spec fn aligned(self, s: Seq<char>) -> bool {
        &&& self.range_in_bounds(s)
        &&& is_boundary(s, self.start)
        &&& is_boundary(s, self.end)
    }

    /// The fresh cursor that covers `[start, end)`: no anchor, no column.
    pub open spec fn fresh(start: int, end: int) -> CursorView {
        CursorView { start, end, anchor: None, column: None }
    }

    /// The fresh cursor on the cluster of `s` that holds position `i`.
    pub open spec fn at(s: Seq<char>, i: int) -> CursorView {
        CursorView::fresh(cluster_at(s, i).0, cluster_at(s, i).1)
    }
}

/// A caret at the start is aligned in every text.
pub proof fn lemma_fresh_caret_aligned(s: Seq<char>)
    ensures
        CursorView::fresh(0, 0).aligned(s),
        CursorView::fresh(0, 0).in_bounds(s),
{
}

/// A fresh cursor on the cluster that holds a position is aligned, and
/// starts at the position if that is a boundary of the text.
pub proof fn lemma_cursor_at_aligned(s: Seq<char>, i: int)
    ensures
        CursorView::at(s, i).aligned(s),
        CursorView::at(s, i).in_bounds(s),
        is_boundary(s, clamp(s, i)) ==> CursorView::at(s, i) == CursorView::fresh(
            clamp(s, i),
            boundary_after(s, clamp(s, i)),
        ),
{
    lemma_cluster_at(s, i);
}

impl View for Cursor {
    type V = CursorView;

    closed spec fn view(&self) -> CursorView {
        CursorView {
            start: self.start as int,
            end: self.end as int,
            anchor: match self.selection {
                Some(anchor) => Some(anchor as int),
                None => None,
            },
            column: match self.visual_horizontal_offset {
                Some(column) => Some(column as int),
                None => None,
            },
        }
    }
}

impl Default for Cursor {
    fn default() -> (cursor: Self)
        ensures
            cursor@ == CursorView::fresh(0, 0),
    {
        Cursor::new()
    }
}

impl Cursor {
    /// A caret at the start of the buffer, with no selection.
    pub fn new() -> (cursor: Self)
        ensures
            cursor@ == CursorView::fresh(0, 0),
    {
        Cursor { start: 0, end: 0, selection: None, visual_horizontal_offset: None }
    }

    /// A cursor that covers `range`, with no selection.
    pub fn with_range(range: Range<CharIndex>) -> (cursor: Self)
        ensures
            cursor@ == CursorView::fresh(range.start as int, range.end as int),
    {
        Cursor {
            start: range.start,
            end: range.end,
            selection: None,
            visual_horizontal_offset: None,
        }
    }

    /// A fresh cursor on the grapheme cluster of `text` that holds position
    /// `index`, which is first clamped into the text.
    pub fn at(text: &Rope, index: CharIndex) -> (cursor: Self)
        ensures
            cursor@ == CursorView::at(text_of(*text), index as int),
            cursor@.aligned(text_of(*text)),
            cursor@.in_bounds(text_of(*text)),
    {
        proof {
            lemma_cursor_at_aligned(text_of(*text), index as int);
        }
        let (start, end) = grapheme_at(text, index);
        Cursor { start, end, selection: None, visual_horizontal_offset: None }
    }

    /// A cursor on the last grapheme cluster of `text`, with no selection.
    pub fn end_of_buffer(text: &Rope) -> (cursor: Self)
        ensures
            cursor@ == CursorView::fresh(
                crate::graphemes::boundary_before(text_of(*text), text_of(*text).len() as int),
                text_of(*text).len() as int,
            ),
            cursor@.aligned(text_of(*text)),
    {
        let len: usize = text.len_chars();
        let start: usize = prev_grapheme_boundary(text, len);
        Cursor { start, end: len, selection: None, visual_horizontal_offset: None }
    }

    /// Whether the cursor covers no character.
    pub fn is_empty(&self) -> (b: bool)
        ensures
            b == (self@.start >= self@.end),
    {
        self.start >= self.end
    }

    /// The range of characters that the cursor covers.
    pub fn range(&self) -> (range: Range<CharIndex>)
        ensures
            range.start == self@.start,
            range.end == self@.end,
    {
        self.start..self.end
    }

    /// The selected range: from the anchor to the start of the cursor,
    /// whichever way round they lie, and the cursor's own range when no
    /// selection is in progress or the anchor is the start of the cursor.
    pub fn selection(&self) -> (range: Range<CharIndex>)
        ensures
            (range.start as int, range.end as int) == self@.selection(),
    {
        match self.selection {
            Some(anchor) => {
                if anchor > self.start {
                    self.start..anchor
                } else if anchor < self.start {
                    anchor..self.start
                } else {
                    self.start..self.end
                }
            },
            None => self.start..self.end,
        }
    }

    /// The selected range with both ends clamped into `text`, and its end not
    /// in front of its start.
    pub(crate) fn selection_in(&self, text: &Rope) -> (span: (CharIndex, CharIndex))
        ensures
            (span.0 as int, span.1 as int) == self@.selection_in(text_of(*text)),
            span.0 <= span.1 <= text_of(*text).len(),
    {
        let len: usize = text.len_chars();
        let selection = self.selection();
        let from: usize = if selection.start > len {
            len
        } else {
            selection.start
        };
        let to: usize = if selection.end > len {
            len
        } else {
            selection.end
        };
        if to >= from {
            (from, to)
        } else {
            (from, from)
        }
    }

    /// Begins a selection at the start of the cursor.
    pub fn begin_selection(&mut self)
        ensures
            final(self)@ == (CursorView { anchor: Some(old(self)@.start), ..old(self)@ }),
    {
        self.selection = Some(self.start)
    }

    /// Gives up the selection, if one is in progress.
    pub fn clear_selection(&mut self)
        ensures
            final(self)@ == (CursorView { anchor: None, ..old(self)@ }),
    {
        self.selection = None;
    }

    /// Where the cursor starts.
    pub(crate) fn start(&self) -> (start: CharIndex)
        ensures
            start == self@.start,
    {
        self.start
    }

    /// Where the cursor ends.
    pub(crate) fn end(&self) -> (end: CharIndex)
        ensures
            end == self@.end,
    {
        self.end
    }

    /// Where the selection was begun, if one is in progress.
    pub(crate) fn anchor(&self) -> (anchor: Option<CharIndex>)
        ensures
            anchor matches Some(a) ==> self@.anchor == Some(a as int),
            anchor is None ==> self@.anchor is None,
    {
        self.selection
    }

    /// Puts the cursor on `[start, end)` and keeps the rest.
    pub(crate) fn set_range(&mut self, start: CharIndex, end: CharIndex)
        ensures
            final(self)@ == (CursorView { start: start as int, end: end as int, ..old(self)@ }),
    {
        self.start = start;
        self.end = end;
    }

    /// Moves the anchor of the selection and keeps the rest.
    pub(crate) fn set_anchor(&mut self, anchor: CharIndex)
        ensures
            final(self)@ == (CursorView { anchor: Some(anchor as int), ..old(self)@ }),
    {
        self.selection = Some(anchor);
    }

    /// The column that vertical movement aims for, if one is remembered.
    pub(crate) fn column(&self) -> (column: Option<usize>)
        ensures
            column matches Some(c) ==> self@.column == Some(c as int),
            column is None ==> self@.column is None,
    {
        self.visual_horizontal_offset
    }

    /// Remembers the column that vertical movement aims for and keeps the
    /// rest.
    pub(crate) fn set_column(&mut self, column: usize)
        ensures
            final(self)@ == (CursorView { column: Some(column as int), ..old(self)@ }),
    {
        self.visual_horizontal_offset = Some(column);
    }

    /// Forgets the remembered column and keeps the rest.
    pub(crate) fn forget_column(&mut self)
        ensures
            final(self)@ == (CursorView { column: None, ..old(self)@ }),
    {
        self.visual_horizontal_offset = None;
    }
}

} // verus!
