//! Moving a cursor through a text buffer, one grapheme cluster at a time.

use crate::cursor::{Cursor, CursorView};
use crate::graphemes::{
    backward_by, boundary_after, boundary_before, clamp, cluster_at, column_after, column_past,
    display_width, forward_by, grapheme_at, is_boundary, lemma_backward_by, lemma_boundary_after,
    lemma_boundary_before, lemma_cluster_at, lemma_forward_by, next_grapheme_boundary,
    next_grapheme_boundary_n, prev_grapheme_boundary, prev_grapheme_boundary_n,
};
use crate::text::{
    lemma_line_begin, lemma_line_of_in_range, lemma_line_start, line_begin, line_count, line_of,
    line_start, minus, saturated, text_of,
};
use ropey::Rope;
use vstd::prelude::*;

verus! {

/// The way a movement goes: towards the end of the buffer or towards its
/// start.
#[derive(Clone, Copy, Debug, PartialEq, Eq, Structural)]
pub enum Direction {
    Forward,
    Backward,
}

/// Where `count` steps over the clusters of `s` in the given direction lead
/// from the start of `cursor`, which is first clamped into `s`.
pub open spec fn reached_horizontally(
    cursor: CursorView,
    s: Seq<char>,
    direction: Direction,
    count: nat,
) -> int {
    match direction {
        Direction::Forward => forward_by(s, clamp(s, cursor.start), count),
        Direction::Backward => backward_by(s, clamp(s, cursor.start), count),
    }
}

/// The cursor `cursor` after it has gone over `count` clusters of `s` in the
/// given direction: it covers the cluster that holds the place where that
/// leads from its old start, keeps its anchor and remembers no column.
pub open spec fn moved_horizontally(
    cursor: CursorView,
    s: Seq<char>,
    direction: Direction,
    count: nat,
) -> CursorView {
    let reached = reached_horizontally(cursor, s, direction, count);
    CursorView {
        start: cluster_at(s, reached).0,
        end: cluster_at(s, reached).1,
        anchor: cursor.anchor,
        column: None,
    }
}

/// Wherever a horizontal movement leads, the cursor is aligned. After at
/// least one step, and from a boundary after none, it starts where the steps
/// have led.
pub proof fn lemma_moved_horizontally(
    cursor: CursorView,
    s: Seq<char>,
    direction: Direction,
    count: nat,
)
    ensures
        moved_horizontally(cursor, s, direction, count).aligned(s),
        0 <= reached_horizontally(cursor, s, direction, count) <= s.len(),
        count > 0 || is_boundary(s, clamp(s, cursor.start)) ==> moved_horizontally(
            cursor,
            s,
            direction,
            count,
        ).start == reached_horizontally(cursor, s, direction, count),
{
    let from = clamp(s, cursor.start);
    lemma_forward_by(s, from, count);
    lemma_backward_by(s, from, count);
    lemma_cluster_at(s, reached_horizontally(cursor, s, direction, count));
}

/// Moves the cursor over `count` grapheme clusters in the given direction,
/// stopping at the end or the start of the buffer. The selection anchor stays;
/// the remembered column is forgotten.
pub fn move_horizontally(text: &Rope, cursor: &mut Cursor, direction: Direction, count: usize)
    ensures
        final(cursor)@ == moved_horizontally(
            old(cursor)@,
            text_of(*text),
            direction,
            count as nat,
        ),
        final(cursor)@.aligned(text_of(*text)),
{
    proof {
        lemma_moved_horizontally(cursor@, text_of(*text), direction, count as nat);
    }
    let reached: usize = match direction {
        Direction::Forward => next_grapheme_boundary_n(text, cursor.start(), count),
        Direction::Backward => prev_grapheme_boundary_n(text, cursor.start(), count),
    };
    let (start, end) = grapheme_at(text, reached);
    cursor.set_range(start, end);
    cursor.forget_column();
}

/// Puts the cursor on the first grapheme cluster of the buffer.
pub fn move_to_start_of_buffer(text: &Rope, cursor: &mut Cursor)
    ensures
        final(cursor)@ == (CursorView {
            start: 0,
            end: boundary_after(text_of(*text), 0),
            anchor: old(cursor)@.anchor,
            column: None,
        }),
        final(cursor)@.aligned(text_of(*text)),
{
    proof {
        lemma_boundary_after(text_of(*text), 0);
    }
    let end: usize = next_grapheme_boundary(text, 0);
    cursor.set_range(0, end);
    cursor.forget_column();
}

/// Puts the cursor behind the last character of the buffer.
pub fn move_to_end_of_buffer(text: &Rope, cursor: &mut Cursor)
    ensures
        final(cursor)@ == (CursorView {
            start: text_of(*text).len() as int,
            end: text_of(*text).len() as int,
            anchor: old(cursor)@.anchor,
            column: None,
        }),
        final(cursor)@.aligned(text_of(*text)),
{
    let len: usize = text.len_chars();
    cursor.set_range(len, len);
    cursor.forget_column();
}

/// Where the last place for a cursor on line `line` of `s` is: the start of
/// the cluster that holds the line break that ends the line, and on the last
/// line, which no line break ends, the end of the text.
pub open spec fn line_last(s: Seq<char>, line: nat) -> int {
    let from = line_start(s, line);
    let next = line_start(s, line + 1);
    if line + 1 >= line_count(s) {
        next
    } else if boundary_before(s, next) >= from {
        boundary_before(s, next)
    } else {
        from
    }
}

/// The place reached by going on from position `at`, which is at column
/// `column`, cluster by cluster, as long as the next cluster still ends at or
/// before column `target` and `stop` is not reached.
pub open spec fn walk_to_column(s: Seq<char>, at: int, column: nat, stop: int, target: nat) -> int
    decreases stop - at,
{
    let next = boundary_after(s, at);
    if 0 <= at < next <= stop && column_after(column, s.subrange(at, next)) <= target {
        walk_to_column(s, next, column_after(column, s.subrange(at, next)), stop, target)
    } else {
        at
    }
}

/// The cursor `cursor` after it has gone over `count` lines of `s` in the
/// given direction, stopping at the last or the first line. It aims for the
/// column it remembers, or else for the column it is at, and remembers that
/// column. On the line it arrives at it covers the last cluster that begins
/// at or before that column, and it keeps its anchor.
pub open spec fn moved_vertically(
    cursor: CursorView,
    s: Seq<char>,
    direction: Direction,
    count: nat,
) -> CursorView {
    let at = clamp(s, cursor.start);
    let line = line_of(s, at);
    let new_line = match direction {
        Direction::Forward => if line + count <= line_count(s) - 1 {
            line + count
        } else {
            (line_count(s) - 1) as nat
        },
        Direction::Backward => minus(line as int, count as int) as nat,
    };
    let target = match cursor.column {
        Some(column) => column,
        None => saturated(display_width(s.subrange(line_begin(s, at), at)) as int),
    };
    let reached = walk_to_column(
        s,
        line_start(s, new_line),
        0,
        line_last(s, new_line),
        target as nat,
    );
    CursorView {
        start: cluster_at(s, reached).0,
        end: cluster_at(s, reached).1,
        anchor: cursor.anchor,
        column: Some(target),
    }
}

/// Wherever a vertical movement leads, the cursor is aligned.
pub proof fn lemma_moved_vertically(
    cursor: CursorView,
    s: Seq<char>,
    direction: Direction,
    count: nat,
)
    ensures
        moved_vertically(cursor, s, direction, count).aligned(s),
{
    let at = clamp(s, cursor.start);
    let line = line_of(s, at);
    let new_line = match direction {
        Direction::Forward => if line + count <= line_count(s) - 1 {
            line + count
        } else {
            (line_count(s) - 1) as nat
        },
        Direction::Backward => minus(line as int, count as int) as nat,
    };
    lemma_line_begin(s, at);
    let target = match cursor.column {
        Some(column) => column,
        None => saturated(display_width(s.subrange(line_begin(s, at), at)) as int),
    };
    let reached = walk_to_column(
        s,
        line_start(s, new_line),
        0,
        line_last(s, new_line),
        target as nat,
    );
    lemma_cluster_at(s, reached);
}

/// The last place for a cursor on a line lies on the line.
pub proof fn lemma_line_last(s: Seq<char>, line: nat)
    ensures
        line_start(s, line) <= line_last(s, line) <= line_start(s, line + 1) <= s.len(),
{
    lemma_line_start(s, line);
    lemma_line_start(s, line + 1);
    lemma_boundary_before(s, line_start(s, line + 1));
}

/// Walks along the line from `from`, which is at column 0, to the last
/// cluster that begins at or before column `target`, but not past `stop`.
fn walk(text: &Rope, from: usize, stop: usize, target: usize) -> (at: usize)
    requires
        from <= stop <= text_of(*text).len(),
    ensures
        at == walk_to_column(text_of(*text), from as int, 0, stop as int, target as nat),
        from <= at <= stop,
{
    let ghost s = text_of(*text);
    let mut at: usize = from;
    let mut column: usize = 0;
    let mut walking: bool = true;
    while walking && at < stop
        invariant
            s == text_of(*text),
            from <= at <= stop <= s.len(),
            walking ==> walk_to_column(s, at as int, column as nat, stop as int, target as nat)
                == walk_to_column(s, from as int, 0, stop as int, target as nat),
            !walking ==> at == walk_to_column(s, from as int, 0, stop as int, target as nat),
        decreases stop - at + if walking { 1int } else { 0int },
    {
        proof {
            lemma_boundary_after(s, at as int);
        }
        let next: usize = next_grapheme_boundary(text, at);
        if next > stop {
            walking = false;
        } else {
            match column_past(text, at, next, column) {
                Some(reached) => {
                    if reached <= target {
                        at = next;
                        column = reached;
                    } else {
                        walking = false;
                    }
                },
                None => {
                    walking = false;
                },
            }
        }
    }
    proof {
        if walking {
            lemma_boundary_after(s, at as int);
        }
    }
    at
}

/// Moves the cursor over `count` lines in the given direction, stopping at
/// the last or the first line, and keeps it as near as the line allows to
/// the column that it remembers, or else to the column that it is at. The
/// selection anchor stays; the column is remembered.
pub fn move_vertically(text: &Rope, cursor: &mut Cursor, direction: Direction, count: usize)
    ensures
        final(cursor)@ == moved_vertically(
            old(cursor)@,
            text_of(*text),
            direction,
            count as nat,
        ),
        final(cursor)@.aligned(text_of(*text)),
{
    let ghost s = text_of(*text);
    let len: usize = text.len_chars();
    let at: usize = if cursor.start() > len {
        len
    } else {
        cursor.start()
    };
    let lines: usize = text.len_lines();
    proof {
        lemma_moved_vertically(cursor@, s, direction, count as nat);
        lemma_line_of_in_range(s, at as int);
        lemma_line_begin(s, at as int);
    }
    let line: usize = text.char_to_line(at);
    let new_line: usize = match direction {
        Direction::Forward => if count < lines - line {
            line + count
        } else {
            lines - 1
        },
        Direction::Backward => line.saturating_sub(count),
    };
    let target: usize = match cursor.column() {
        Some(column) => column,
        None => crate::graphemes::width(text, text.line_to_char(line), at),
    };
    proof {
        lemma_line_last(s, new_line as nat);
        lemma_line_start(s, new_line as nat);
        lemma_line_start(s, (new_line + 1) as nat);
    }
    let from: usize = text.line_to_char(new_line);
    let next: usize = text.line_to_char(new_line + 1);
    let stop: usize = if new_line + 1 >= lines {
        next
    } else {
        let last: usize = prev_grapheme_boundary(text, next);
        if last >= from {
            last
        } else {
            from
        }
    };
    let reached: usize = walk(text, from, stop, target);
    let (start, end) = grapheme_at(text, reached);
    cursor.set_range(start, end);
    cursor.set_column(target);
}

/// Puts the cursor on the cluster at the start of the line that it starts
/// on. The selection anchor stays; the remembered column is forgotten.
pub fn move_to_start_of_line(text: &Rope, cursor: &mut Cursor)
    ensures
        final(cursor)@ == ({
            let s = text_of(*text);
            let start = line_begin(s, clamp(s, old(cursor)@.start));
            CursorView {
                start: cluster_at(s, start).0,
                end: cluster_at(s, start).1,
                anchor: old(cursor)@.anchor,
                column: None,
            }
        }),
        final(cursor)@.aligned(text_of(*text)),
{
    let ghost s = text_of(*text);
    let len: usize = text.len_chars();
    let at: usize = if cursor.start() > len {
        len
    } else {
        cursor.start()
    };
    proof {
        lemma_line_of_in_range(s, at as int);
        lemma_line_begin(s, at as int);
    }
    let (start, end) = grapheme_at(text, text.line_to_char(text.char_to_line(at)));
    cursor.set_range(start, end);
    cursor.forget_column();
}

/// Puts the cursor on the last place of the line that it starts on: the
/// cluster of the line break that ends the line, or the end of the buffer on
/// the last line. The selection anchor stays; the remembered column is
/// forgotten.
pub fn move_to_end_of_line(text: &Rope, cursor: &mut Cursor)
    ensures
        final(cursor)@ == ({
            let s = text_of(*text);
            let start = line_last(s, line_of(s, clamp(s, old(cursor)@.start)));
            CursorView {
                start: cluster_at(s, start).0,
                end: cluster_at(s, start).1,
                anchor: old(cursor)@.anchor,
                column: None,
            }
        }),
        final(cursor)@.aligned(text_of(*text)),
{
    let ghost s = text_of(*text);
    let len: usize = text.len_chars();
    let at: usize = if cursor.start() > len {
        len
    } else {
        cursor.start()
    };
    let lines: usize = text.len_lines();
    proof {
        lemma_line_of_in_range(s, at as int);
    }
    let line: usize = text.char_to_line(at);
    proof {
        lemma_line_last(s, line as nat);
        lemma_line_start(s, line as nat);
        lemma_line_start(s, (line + 1) as nat);
    }
    let from: usize = text.line_to_char(line);
    let next: usize = text.line_to_char(line + 1);
    let last: usize = if line + 1 >= lines {
        next
    } else {
        let last: usize = prev_grapheme_boundary(text, next);
        if last >= from {
            last
        } else {
            from
        }
    };
    let (start, end) = grapheme_at(text, last);
    cursor.set_range(start, end);
    cursor.forget_column();
}

} // verus!
