//! Indenting and unindenting: putting characters in front of lines and
//! taking leading whitespace away from them, for the line of the cursor or
//! for every line of a selection.

use crate::cursor::{Cursor, CursorView};
use crate::delete::{is_deletion, nothing_deleted};
use crate::diff::{lemma_described_by_ends, DeleteOperation, OpaqueDiff};
use crate::graphemes::{clamp, TAB_WIDTH};
use crate::movement::{move_horizontally, moved_horizontally, Direction};
use crate::text::{
    byte_len, byte_offset, char_bytes, copy_range, is_line_break, lemma_byte_offset_bound,
    lemma_byte_offset_split, lemma_line_begin, lemma_line_of_in_range, lemma_line_of_monotone,
    lemma_line_start, lemma_line_start_monotone, lemma_line_starts_after_insert,
    lemma_line_starts_after_remove, lemma_tail_of_concat, lemma_tail_of_end,
    lemma_with_inserted_lengths, lemma_without_range_lengths, line_begin, line_count, line_of,
    line_start, minus, no_line_breaks, no_lone_returns, remove_range, saturated, text_of,
    with_inserted, without_range,
};
use ropey::Rope;
use vstd::prelude::*;

verus! {

/// The first and the last line that the selection of `cursor` touches in the
/// text `s`, both ends of the selection first clamped into the text.
pub open spec fn selected_lines(cursor: CursorView, s: Seq<char>) -> (nat, nat) {
    (line_of(s, cursor.selection_in(s).0), line_of(s, cursor.selection_in(s).1))
}

/// Where line `last` of `s` ends: one position in front of the start of the
/// line behind it, and the end of the text if no line is behind it.
pub open spec fn span_end(s: Seq<char>, last: nat) -> int {
    if last + 1 >= line_count(s) {
        s.len() as int
    } else {
        line_start(s, last + 1) - 1
    }
}

/// The span of the lines `first` to `last` lies inside the text.
pub proof fn lemma_span_end(s: Seq<char>, first: nat, last: nat)
    requires
        first <= last,
    ensures
        0 <= line_start(s, first) <= line_start(s, last) <= span_end(s, last) <= s.len(),
{
    lemma_line_start(s, first);
    lemma_line_start(s, last);
    lemma_line_start(s, last + 1);
    lemma_line_start_monotone(s, first, last);
}

/// The number of lines from `first` to `last`, not counting `first`, and at
/// least one: the number that the characters put in or taken out are shared
/// among.
pub open spec fn line_span(first: nat, last: nat) -> int {
    if last > first {
        last - first
    } else {
        1
    }
}

/// The text `s` after `prefix` was put in front of each of the lines `line`
/// to `last`, from the first to the last. Each line is looked up in the text
/// as the insertions before it have left it.
pub open spec fn prepended(s: Seq<char>, prefix: Seq<char>, line: nat, last: nat) -> Seq<char>
    decreases last + 1 - line,
{
    if line > last || line > line_count(s) {
        s
    } else {
        prepended(with_inserted(s, line_start(s, line), prefix), prefix, line + 1, last)
    }
}

/// The cursor after characters were put in front of the selected lines
/// `first` to `last`, which made the text `after` and made it longer by
/// `grown` characters.
///
/// Without an anchor the cursor stays. With the anchor in front of the
/// cursor, the cursor goes forward by one cluster less than `grown` and the
/// anchor by the share of one line; with the anchor behind the cursor it is
/// the other way round.
pub open spec fn cursor_after_prepend(
    cursor: CursorView,
    after: Seq<char>,
    first: nat,
    last: nat,
    grown: int,
) -> CursorView {
    match cursor.anchor {
        None => cursor,
        Some(anchor) => {
            let share = grown / line_span(first, last);
            if cursor.selection().1 == cursor.start {
                CursorView {
                    anchor: Some(saturated(anchor + share)),
                    ..moved_horizontally(cursor, after, Direction::Forward, minus(grown, 1) as nat)
                }
            } else {
                CursorView {
                    anchor: Some(saturated(anchor + grown)),
                    ..moved_horizontally(cursor, after, Direction::Forward, minus(share, 1) as nat)
                }
            }
        },
    }
}

/// Whether the step from `cursor` and `before` to `cursor_after` and `after`,
/// with the record `diff`, is that of putting `characters` in front of every
/// selected line.
///
/// The diff spans the selected lines, from the start of the first to the end
/// of the last, the line break that ends the last one left out: its old
/// lengths are those of that span before the edit, its new lengths are longer
/// by what the buffer has grown.
pub open spec fn prepends_to_selection(
    cursor: CursorView,
    before: Seq<char>,
    characters: Seq<char>,
    cursor_after: CursorView,
    after: Seq<char>,
    diff: OpaqueDiff,
) -> bool {
    let (first, last) = selected_lines(cursor, before);
    let from = line_start(before, first);
    let to = span_end(before, last);
    let at = line_start(
        after,
        if first <= line_count(after) {
            first
        } else {
            line_count(after)
        },
    );
    &&& after == prepended(before, characters, first, last)
    &&& diff.char_index == at
    &&& diff.byte_index == byte_offset(after, at)
    &&& diff.old_char_length == to - from
    &&& diff.old_byte_length == byte_len(before.subrange(from, to))
    &&& diff.new_char_length == diff.old_char_length + (after.len() - before.len())
    &&& diff.new_byte_length == diff.old_byte_length + (byte_len(after) - byte_len(before))
    &&& cursor_after == cursor_after_prepend(
        cursor,
        after,
        first,
        last,
        after.len() - before.len(),
    )
}

/// Putting a prefix in front of lines never makes the text shorter, in
/// characters or in bytes.
pub proof fn lemma_prepended_grows(s: Seq<char>, prefix: Seq<char>, line: nat, last: nat)
    ensures
        prepended(s, prefix, line, last).len() >= s.len(),
        byte_len(prepended(s, prefix, line, last)) >= byte_len(s),
    decreases last + 1 - line,
{
    if line > last || line > line_count(s) {
    } else {
        lemma_line_start(s, line);
        lemma_with_inserted_lengths(s, line_start(s, line), prefix);
        lemma_prepended_grows(
            with_inserted(s, line_start(s, line), prefix),
            prefix,
            line + 1,
            last,
        );
    }
}

/// The lines `line` to `last` of `s`, each with `prefix` in front of it, and
/// behind them the rest of `s`.
pub open spec fn prefixed_lines(s: Seq<char>, prefix: Seq<char>, line: nat, last: nat) -> Seq<
    char,
>
    decreases last + 1 - line,
{
    if line > last {
        s.subrange(line_start(s, line), s.len() as int)
    } else {
        prefix + s.subrange(line_start(s, line), line_start(s, line + 1)) + prefixed_lines(
            s,
            prefix,
            line + 1,
            last,
        )
    }
}

/// Text put in at the start of a line leaves the lines behind that line as
/// they are, prefixed or not.
proof fn lemma_prefixed_lines_behind_insert(
    s: Seq<char>,
    prefix: Seq<char>,
    k: nat,
    line: nat,
    last: nat,
)
    requires
        k < line <= last + 1,
        last < line_count(s),
        no_line_breaks(prefix),
    ensures
        prefixed_lines(with_inserted(s, line_start(s, k), prefix), prefix, line, last)
            == prefixed_lines(s, prefix, line, last),
    decreases last + 1 - line,
{
    let p = line_start(s, k);
    let n = prefix.len() as int;
    let s1 = with_inserted(s, p, prefix);
    lemma_line_start(s, k);
    lemma_line_start(s, line);
    lemma_line_start_monotone(s, k + 1, line);
    lemma_line_start_monotone(s, line, line + 1);
    lemma_line_start(s, line + 1);
    lemma_line_starts_after_insert(s, k, prefix, line);
    lemma_line_starts_after_insert(s, k, prefix, line + 1);
    let a = line_start(s, line);
    let b = line_start(s, line + 1);
    assert(p <= a <= b <= s.len());
    if line > last {
        assert(s1.subrange(a + n, s1.len() as int) =~= s.subrange(a, s.len() as int));
    } else {
        lemma_prefixed_lines_behind_insert(s, prefix, k, line + 1, last);
        assert(s1.subrange(a + n, b + n) =~= s.subrange(a, b));
    }
}

/// Where the characters put in front of the lines hold no line break, every
/// one of the lines `first` to `last` of the text has them in front of it
/// afterwards, nothing else has changed, and the text has as many lines as
/// before.
pub proof fn lemma_prepended_prefixes_every_line(
    s: Seq<char>,
    prefix: Seq<char>,
    first: nat,
    last: nat,
)
    requires
        first <= last < line_count(s),
        no_line_breaks(prefix),
    ensures
        prepended(s, prefix, first, last) == s.subrange(0, line_start(s, first)) + prefixed_lines(
            s,
            prefix,
            first,
            last,
        ),
        line_count(prepended(s, prefix, first, last)) == line_count(s),
    decreases last - first,
{
    let p = line_start(s, first);
    let n = prefix.len() as int;
    let s1 = with_inserted(s, p, prefix);
    lemma_line_start(s, first);
    lemma_line_start(s, first + 1);
    lemma_line_starts_after_insert(s, first, prefix, first + 1);
    let b = line_start(s, first + 1);
    assert(prepended(s, prefix, first, last) == prepended(s1, prefix, first + 1, last));
    let rest = prefixed_lines(s, prefix, first + 1, last);
    assert(prefixed_lines(s, prefix, first, last) == prefix + s.subrange(p, b) + rest);
    if first == last {
        assert(prepended(s1, prefix, first + 1, last) == s1);
        assert(rest == s.subrange(b, s.len() as int));
        assert(s1 =~= s.subrange(0, p) + (prefix + s.subrange(p, b) + rest));
    } else {
        lemma_prepended_prefixes_every_line(s1, prefix, first + 1, last);
        lemma_prefixed_lines_behind_insert(s, prefix, first, first + 1, last);
        assert(line_start(s1, first + 1) == b + n);
        assert(prefixed_lines(s1, prefix, first + 1, last) == rest);
        assert(prepended(s1, prefix, first + 1, last) == s1.subrange(0, b + n) + rest);
        assert(s1.subrange(0, b + n) =~= s.subrange(0, p) + prefix + s.subrange(p, b));
        assert(s.subrange(0, p) + prefix + s.subrange(p, b) + rest =~= s.subrange(0, p) + (prefix
            + s.subrange(p, b) + rest));
    }
}

/// Where the characters put in front of the lines `first` to `last` hold no
/// line break, the lines up to `first` start where they did, and the lines
/// behind `last` have moved on by what the text has grown.
pub proof fn lemma_prepended_line_starts(
    s: Seq<char>,
    prefix: Seq<char>,
    first: nat,
    last: nat,
    j: nat,
)
    requires
        first <= last < line_count(s),
        no_line_breaks(prefix),
        j <= first || j > last,
    ensures
        line_start(prepended(s, prefix, first, last), j) == line_start(s, j) + if j > last {
            prepended(s, prefix, first, last).len() - s.len()
        } else {
            0
        },
    decreases last - first,
{
    let p = line_start(s, first);
    let s1 = with_inserted(s, p, prefix);
    lemma_line_start(s, first);
    lemma_line_starts_after_insert(s, first, prefix, j);
    lemma_with_inserted_lengths(s, p, prefix);
    assert(prepended(s, prefix, first, last) == prepended(s1, prefix, first + 1, last));
    if first == last {
        assert(prepended(s1, prefix, first + 1, last) == s1);
    } else {
        lemma_prepended_line_starts(s1, prefix, first + 1, last, j);
    }
}

/// The prefixed lines end as the text does, from the end of the last of the
/// lines on.
proof fn lemma_prefixed_lines_tail(s: Seq<char>, prefix: Seq<char>, line: nat, last: nat)
    requires
        line <= last < line_count(s),
    ensures
        ({
            let lines = prefixed_lines(s, prefix, line, last);
            let kept = s.len() - span_end(s, last);
            &&& lines.len() >= kept
            &&& lines.subrange(lines.len() - kept, lines.len() as int) == s.subrange(
                span_end(s, last),
                s.len() as int,
            )
        }),
    decreases last - line,
{
    let a = line_start(s, line);
    let b = line_start(s, line + 1);
    let rest = prefixed_lines(s, prefix, line + 1, last);
    let lines = prefixed_lines(s, prefix, line, last);
    let kept = s.len() - span_end(s, last);
    lemma_line_start(s, line);
    lemma_line_start(s, line + 1);
    lemma_span_end(s, line, last);
    assert(lines == prefix + s.subrange(a, b) + rest);
    if line == last {
        assert(rest == s.subrange(b, s.len() as int));
        assert(s.subrange(a, b) + rest =~= s.subrange(a, s.len() as int));
        assert(lines =~= prefix + s.subrange(a, s.len() as int));
        lemma_tail_of_concat(prefix, s.subrange(a, s.len() as int), kept);
        lemma_tail_of_end(s, a, kept);
    } else {
        lemma_prefixed_lines_tail(s, prefix, line + 1, last);
        lemma_tail_of_concat(prefix + s.subrange(a, b), rest, kept);
    }
}

/// Where the characters put in front of the selected lines hold no line
/// break, the diff of the edit is an exact record of it.
pub proof fn lemma_prepend_selection_described(
    cursor: CursorView,
    before: Seq<char>,
    characters: Seq<char>,
    cursor_after: CursorView,
    after: Seq<char>,
    diff: OpaqueDiff,
)
    requires
        prepends_to_selection(cursor, before, characters, cursor_after, after, diff),
        no_line_breaks(characters),
    ensures
        diff.describes(before, after),
{
    let (first, last) = selected_lines(cursor, before);
    let span = cursor.selection_in(before);
    lemma_line_of_monotone(before, span.0, span.1);
    lemma_line_of_in_range(before, span.1);
    lemma_prepended_prefixes_every_line(before, characters, first, last);
    lemma_prepended_line_starts(before, characters, first, last, first);
    lemma_prefixed_lines_tail(before, characters, first, last);
    lemma_prepended_grows(before, characters, first, last);
    lemma_span_end(before, first, last);
    let p = line_start(before, first);
    let end = span_end(before, last);
    let lines = prefixed_lines(before, characters, first, last);
    let kept = before.len() - end;
    assert(after == before.subrange(0, p) + lines);
    assert(after.subrange(0, p) =~= before.subrange(0, p));
    assert(after.subrange(after.len() - kept, after.len() as int) =~= lines.subrange(
        lines.len() - kept,
        lines.len() as int,
    ));
    lemma_described_by_ends(diff, before, after, end);
}

/// The number of spaces that `s` has from position `at` on, counting at
/// most `limit` of them.
pub open spec fn leading_spaces(s: Seq<char>, at: int, limit: nat) -> nat
    decreases limit,
{
    if limit == 0 || at < 0 || at >= s.len() || s[at] != ' ' {
        0
    } else {
        1 + leading_spaces(s, at + 1, (limit - 1) as nat)
    }
}

/// The length of the whitespace that one step of unindenting takes away at
/// position `at` of `s`: one for a tab; otherwise the number of spaces there,
/// up to the width of a tab; and nothing where the text ends at `at` or less
/// than the width of a tab behind it.
pub open spec fn leading_whitespace(s: Seq<char>, at: int) -> nat {
    if at < 0 || at >= s.len() {
        0
    } else if s[at] == '\t' {
        1
    } else if at + TAB_WIDTH > s.len() {
        0
    } else {
        leading_spaces(s, at, TAB_WIDTH as nat)
    }
}

/// The text `s` after each of the lines `line` to `last` has lost its leading
/// whitespace, from the first to the last. Each line is looked up in the text
/// as the removals before it have left it, and lines that are no longer there
/// are left out.
pub open spec fn unindented(s: Seq<char>, line: nat, last: nat) -> Seq<char>
    decreases last + 1 - line,
{
    if line > last || line >= line_count(s) {
        s
    } else {
        unindented(
            without_range(
                s,
                line_start(s, line),
                line_start(s, line) + leading_whitespace(s, line_start(s, line)),
            ),
            line + 1,
            last,
        )
    }
}

/// The cursor after the selected lines `first` to `last` have lost `removed`
/// characters of leading whitespace, which made the text `after`.
///
/// Without an anchor the cursor stays. With the anchor in front of the
/// cursor, the cursor goes backward by `removed` clusters, but not further
/// than to the start of its line, and the anchor by the share of one line.
/// With the anchor behind the cursor, the cursor goes backward by the share
/// of one line if the whitespace found at the position whose index is the
/// number of the first selected line is at least that long, and else stays
/// where it starts; the anchor goes backward by `removed`. The anchor stays
/// where going backward would pass the start of the text. A cursor that has
/// an anchor covers the cluster that begins where it has come to.
pub open spec fn cursor_after_unindent(
    cursor: CursorView,
    after: Seq<char>,
    first: nat,
    last: nat,
    removed: int,
) -> CursorView {
    match cursor.anchor {
        None => cursor,
        Some(anchor) => {
            let share = removed / line_span(first, last);
            if cursor.selection().1 == cursor.start {
                let at = clamp(after, cursor.start);
                let in_line = at - line_begin(after, at);
                let distance = if removed <= in_line {
                    removed
                } else {
                    in_line
                };
                CursorView {
                    anchor: Some(
                        if anchor >= share {
                            anchor - share
                        } else {
                            anchor
                        },
                    ),
                    ..moved_horizontally(cursor, after, Direction::Backward, distance as nat)
                }
            } else {
                let probe = line_of(after, clamp(after, cursor.selection().0));
                let distance = if leading_whitespace(after, probe as int) >= share {
                    share
                } else {
                    0
                };
                CursorView {
                    anchor: Some(
                        if anchor >= removed {
                            anchor - removed
                        } else {
                            anchor
                        },
                    ),
                    ..moved_horizontally(cursor, after, Direction::Backward, distance as nat)
                }
            }
        },
    }
}

/// Whether the step from `cursor` and `before` to `cursor_after` and `after`,
/// with the result `operation`, is that of taking the leading whitespace
/// away from every selected line.
///
/// The diff spans the selected lines as they are after the edit, from the
/// start of the first to the end of the last, the line break that ends the
/// last one left out: its new lengths are those of that span, its old lengths
/// are longer by what the buffer has shrunk. The text handed back is that
/// span.
pub open spec fn unindents_selection(
    cursor: CursorView,
    before: Seq<char>,
    cursor_after: CursorView,
    after: Seq<char>,
    operation: DeleteOperation,
) -> bool {
    let (first, last) = selected_lines(cursor, before);
    let removed = before.len() - after.len();
    let from = line_start(after, first);
    let to = span_end(after, last);
    let diff = operation.diff;
    &&& after == unindented(before, first, last)
    &&& text_of(operation.deleted) == after.subrange(from, to)
    &&& diff.char_index == from
    &&& diff.byte_index == byte_offset(after, from)
    &&& diff.new_char_length == to - from
    &&& diff.new_byte_length == byte_len(after.subrange(from, to))
    &&& diff.old_char_length == diff.new_char_length + removed
    &&& diff.old_byte_length == diff.new_byte_length + (byte_len(before) - byte_len(after))
    &&& cursor_after == cursor_after_unindent(cursor, after, first, last, removed)
}

/// The whitespace that a step of unindenting takes away at a position lies
/// inside the text and is no longer than a tab is wide.
pub proof fn lemma_leading_whitespace(s: Seq<char>, at: int)
    ensures
        leading_whitespace(s, at) <= TAB_WIDTH,
        0 <= at <= s.len() ==> at + leading_whitespace(s, at) <= s.len(),
{
    lemma_leading_spaces(s, at, TAB_WIDTH as nat);
}

/// No more spaces are counted than the limit allows.
pub proof fn lemma_leading_spaces(s: Seq<char>, at: int, limit: nat)
    ensures
        leading_spaces(s, at, limit) <= limit,
    decreases limit,
{
    if limit > 0 {
        lemma_leading_spaces(s, at + 1, (limit - 1) as nat);
    }
}

/// The spaces counted from a position on are spaces.
pub proof fn lemma_leading_spaces_are_spaces(s: Seq<char>, at: int, limit: nat)
    requires
        0 <= at <= s.len(),
    ensures
        at + leading_spaces(s, at, limit) <= s.len(),
        forall|i: int| at <= i < at + leading_spaces(s, at, limit) ==> s[i] == ' ',
    decreases limit,
{
    if !(limit == 0 || at >= s.len() || s[at] != ' ') {
        lemma_leading_spaces_are_spaces(s, at + 1, (limit - 1) as nat);
    }
}

/// A stretch of tabs and spaces takes one byte for every character.
pub proof fn lemma_blanks_take_one_byte_each(s: Seq<char>)
    requires
        forall|i: int| 0 <= i < s.len() ==> s[i] == ' ' || s[i] == '\t',
    ensures
        byte_len(s) == s.len(),
    decreases s.len(),
{
    if s.len() > 0 {
        lemma_blanks_take_one_byte_each(s.drop_last());
        assert(char_bytes(' ') == 1 && char_bytes('\t') == 1);
    }
}

/// The whitespace that a step of unindenting takes away is made of tabs and
/// spaces, which take one byte each.
pub proof fn lemma_leading_whitespace_bytes(s: Seq<char>, at: int)
    requires
        0 <= at <= s.len(),
    ensures
        byte_len(s.subrange(at, at + leading_whitespace(s, at))) == leading_whitespace(s, at),
{
    lemma_leading_whitespace(s, at);
    lemma_leading_spaces_are_spaces(s, at, TAB_WIDTH as nat);
    lemma_blanks_take_one_byte_each(s.subrange(at, at + leading_whitespace(s, at)));
}

/// The lines `line` to `last` of `s`, each without its leading whitespace,
/// and behind them the rest of `s`.
pub open spec fn stripped_lines(s: Seq<char>, line: nat, last: nat) -> Seq<char>
    decreases last + 1 - line,
{
    if line > last {
        s.subrange(line_start(s, line), s.len() as int)
    } else {
        s.subrange(
            line_start(s, line) + leading_whitespace(s, line_start(s, line)),
            line_start(s, line + 1),
        ) + stripped_lines(s, line + 1, last)
    }
}

/// The whitespace that a step of unindenting takes away holds no line break.
pub proof fn lemma_leading_whitespace_no_breaks(s: Seq<char>, at: int)
    requires
        0 <= at <= s.len(),
    ensures
        no_line_breaks(s.subrange(at, at + leading_whitespace(s, at))),
{
    lemma_leading_whitespace(s, at);
    lemma_leading_spaces_are_spaces(s, at, TAB_WIDTH as nat);
    let blanks = s.subrange(at, at + leading_whitespace(s, at));
    assert forall|i: int| 0 <= i < blanks.len() implies !is_line_break(#[trigger] blanks[i]) by {
        assert(blanks[i] == s[at + i]);
    }
}

/// The spaces counted from a position on do not depend on what was taken out
/// in front of the position.
proof fn lemma_leading_spaces_behind_remove(s: Seq<char>, p: int, w: int, at: int, limit: nat)
    requires
        0 <= p,
        0 <= w,
        p + w <= at <= s.len(),
    ensures
        leading_spaces(without_range(s, p, p + w), at - w, limit) == leading_spaces(s, at, limit),
    decreases limit,
{
    let s1 = without_range(s, p, p + w);
    if limit > 0 && at < s.len() {
        assert(s1[at - w] == s[at]);
        lemma_leading_spaces_behind_remove(s, p, w, at + 1, (limit - 1) as nat);
    }
}

/// The whitespace that a step of unindenting takes away at a position does
/// not depend on what was taken out in front of the position.
proof fn lemma_leading_whitespace_behind_remove(s: Seq<char>, p: int, w: int, at: int)
    requires
        0 <= p,
        0 <= w,
        p + w <= at <= s.len(),
    ensures
        leading_whitespace(without_range(s, p, p + w), at - w) == leading_whitespace(s, at),
{
    let s1 = without_range(s, p, p + w);
    if at < s.len() {
        assert(s1[at - w] == s[at]);
    }
    lemma_leading_spaces_behind_remove(s, p, w, at, TAB_WIDTH as nat);
}

/// Leading whitespace taken away at the start of a line leaves the lines
/// behind that line as they are, stripped or not.
proof fn lemma_stripped_lines_behind_remove(s: Seq<char>, k: nat, line: nat, last: nat)
    requires
        k < line <= last + 1,
        last < line_count(s),
        no_lone_returns(s),
    ensures
        stripped_lines(
            without_range(
                s,
                line_start(s, k),
                line_start(s, k) + leading_whitespace(s, line_start(s, k)),
            ),
            line,
            last,
        ) == stripped_lines(s, line, last),
    decreases last + 1 - line,
{
    let p = line_start(s, k);
    let w = leading_whitespace(s, p) as int;
    let s1 = without_range(s, p, p + w);
    lemma_line_start(s, k);
    lemma_leading_whitespace(s, p);
    lemma_leading_whitespace_no_breaks(s, p);
    lemma_line_start(s, line);
    lemma_line_start(s, line + 1);
    lemma_line_start_monotone(s, k + 1, line);
    lemma_line_start_monotone(s, line, line + 1);
    lemma_line_starts_after_remove(s, k, w, line);
    lemma_line_starts_after_remove(s, k, w, line + 1);
    let a = line_start(s, line);
    let b = line_start(s, line + 1);
    assert(p + w <= a <= b <= s.len());
    if line > last {
        assert(s1.subrange(a - w, s1.len() as int) =~= s.subrange(a, s.len() as int));
    } else {
        lemma_stripped_lines_behind_remove(s, k, line + 1, last);
        lemma_leading_whitespace_behind_remove(s, p, w, a);
        lemma_leading_whitespace(s, a);
        lemma_leading_whitespace_no_breaks(s, a);
        lemma_line_starts_after_remove(s, line, leading_whitespace(s, a) as int, line);
        let v = leading_whitespace(s, a) as int;
        assert(s1.subrange(a - w + v, b - w) =~= s.subrange(a + v, b));
    }
}

/// In a text in which no carriage return stands alone, every one of the
/// lines `first` to `last` is without its leading whitespace afterwards,
/// nothing else has changed, and the text has as many lines as before.
pub proof fn lemma_unindented_strips_every_line(s: Seq<char>, first: nat, last: nat)
    requires
        first <= last < line_count(s),
        no_lone_returns(s),
    ensures
        unindented(s, first, last) == s.subrange(0, line_start(s, first)) + stripped_lines(
            s,
            first,
            last,
        ),
        line_count(unindented(s, first, last)) == line_count(s),
    decreases last - first,
{
    let p = line_start(s, first);
    let w = leading_whitespace(s, p) as int;
    let s1 = without_range(s, p, p + w);
    lemma_line_start(s, first);
    lemma_line_start(s, first + 1);
    lemma_leading_whitespace(s, p);
    lemma_leading_whitespace_no_breaks(s, p);
    lemma_line_starts_after_remove(s, first, w, first + 1);
    let b = line_start(s, first + 1);
    let rest = stripped_lines(s, first + 1, last);
    assert(unindented(s, first, last) == unindented(s1, first + 1, last));
    assert(stripped_lines(s, first, last) == s.subrange(p + w, b) + rest);
    if first == last {
        assert(unindented(s1, first + 1, last) == s1);
        assert(rest == s.subrange(b, s.len() as int));
        assert(s1 =~= s.subrange(0, p) + (s.subrange(p + w, b) + rest));
    } else {
        lemma_unindented_strips_every_line(s1, first + 1, last);
        lemma_stripped_lines_behind_remove(s, first, first + 1, last);
        assert(line_start(s1, first + 1) == b - w);
        assert(stripped_lines(s1, first + 1, last) == rest);
        assert(unindented(s1, first + 1, last) == s1.subrange(0, b - w) + rest);
        assert(s1.subrange(0, b - w) =~= s.subrange(0, p) + s.subrange(p + w, b));
        assert(s.subrange(0, p) + s.subrange(p + w, b) + rest =~= s.subrange(0, p) + (s.subrange(
            p + w,
            b,
        ) + rest));
    }
}

/// In a text in which no carriage return stands alone, unindenting the lines
/// `first` to `last` leaves the lines up to `first` where they start and
/// moves the lines behind `last` back by what the text has shrunk.
pub proof fn lemma_unindented_line_starts(s: Seq<char>, first: nat, last: nat, j: nat)
    requires
        first <= last < line_count(s),
        no_lone_returns(s),
        j <= first || j > last,
    ensures
        unindented(s, first, last).len() <= s.len(),
        line_start(unindented(s, first, last), j) == line_start(s, j) - if j > last {
            s.len() - unindented(s, first, last).len()
        } else {
            0
        },
    decreases last - first,
{
    let p = line_start(s, first);
    let w = leading_whitespace(s, p) as int;
    let s1 = without_range(s, p, p + w);
    lemma_line_start(s, first);
    lemma_leading_whitespace(s, p);
    lemma_leading_whitespace_no_breaks(s, p);
    lemma_line_starts_after_remove(s, first, w, j);
    lemma_without_range_lengths(s, p, p + w);
    assert(unindented(s, first, last) == unindented(s1, first + 1, last));
    if first == last {
        assert(unindented(s1, first + 1, last) == s1);
    } else {
        lemma_unindented_line_starts(s1, first + 1, last, j);
    }
}

/// The stripped lines end as the text does, from the end of the last of the
/// lines on.
proof fn lemma_stripped_lines_tail(s: Seq<char>, line: nat, last: nat)
    requires
        line <= last < line_count(s),
    ensures
        ({
            let lines = stripped_lines(s, line, last);
            let kept = s.len() - span_end(s, last);
            &&& lines.len() >= kept
            &&& lines.subrange(lines.len() - kept, lines.len() as int) == s.subrange(
                span_end(s, last),
                s.len() as int,
            )
        }),
    decreases last - line,
{
    let a = line_start(s, line);
    let b = line_start(s, line + 1);
    let w = leading_whitespace(s, a) as int;
    let rest = stripped_lines(s, line + 1, last);
    let lines = stripped_lines(s, line, last);
    let kept = s.len() - span_end(s, last);
    lemma_line_start(s, line);
    lemma_line_start(s, line + 1);
    lemma_span_end(s, line, last);
    lemma_leading_whitespace(s, a);
    lemma_leading_whitespace_no_breaks(s, a);
    assert(lines == s.subrange(a + w, b) + rest);
    // the whitespace ends in front of the line break that ends the line
    assert(a + w <= b && (line + 1 < line_count(s) ==> a + w <= b - 1)) by {
        if line + 1 < line_count(s) && a + w > b - 1 {
            assert(s.subrange(a, a + w)[b - 1 - a] == s[b - 1]);
        }
    }
    if line == last {
        assert(rest == s.subrange(b, s.len() as int));
        assert(lines =~= s.subrange(a + w, s.len() as int));
        lemma_tail_of_end(s, a + w, kept);
    } else {
        lemma_stripped_lines_tail(s, line + 1, last);
        lemma_tail_of_concat(s.subrange(a + w, b), rest, kept);
    }
}

/// In a text in which no carriage return stands alone, the diff of
/// unindenting the selected lines is an exact record of the edit.
pub proof fn lemma_unindent_selection_described(
    cursor: CursorView,
    before: Seq<char>,
    cursor_after: CursorView,
    after: Seq<char>,
    operation: DeleteOperation,
)
    requires
        unindents_selection(cursor, before, cursor_after, after, operation),
        no_lone_returns(before),
    ensures
        operation.diff.describes(before, after),
{
    let (first, last) = selected_lines(cursor, before);
    let span = cursor.selection_in(before);
    lemma_line_of_monotone(before, span.0, span.1);
    lemma_line_of_in_range(before, span.1);
    lemma_unindented_strips_every_line(before, first, last);
    lemma_unindented_line_starts(before, first, last, first);
    lemma_unindented_line_starts(before, first, last, last + 1);
    lemma_unindented_shrinks(before, first, last);
    lemma_stripped_lines_tail(before, first, last);
    lemma_span_end(before, first, last);
    lemma_span_end(after, first, last);
    let p = line_start(before, first);
    let end = span_end(before, last);
    let lines = stripped_lines(before, first, last);
    let kept = before.len() - end;
    assert(after == before.subrange(0, p) + lines);
    assert(after.subrange(0, p) =~= before.subrange(0, p));
    assert(after.subrange(after.len() - kept, after.len() as int) =~= lines.subrange(
        lines.len() - kept,
        lines.len() as int,
    ));
    assert(span_end(after, last) == end - (before.len() - after.len()));
    lemma_described_by_ends(operation.diff, before, after, end);
}

/// Taking leading whitespace away never makes the text longer, and makes it
/// shorter by as many bytes as characters.
pub proof fn lemma_unindented_shrinks(s: Seq<char>, line: nat, last: nat)
    ensures
        unindented(s, line, last).len() <= s.len(),
        byte_len(s) - byte_len(unindented(s, line, last)) == s.len() - unindented(
            s,
            line,
            last,
        ).len(),
    decreases last + 1 - line,
{
    if line > last || line >= line_count(s) {
    } else {
        let at = line_start(s, line);
        let to = at + leading_whitespace(s, at);
        lemma_line_start(s, line);
        lemma_leading_whitespace(s, at);
        lemma_leading_whitespace_bytes(s, at);
        lemma_without_range_lengths(s, at, to);
        lemma_unindented_shrinks(without_range(s, at, to), line + 1, last);
    }
}

impl Cursor {
    /// Puts `characters` in front of each of the lines `first` to `last`.
    fn prepend_lines(&mut self, text: &mut Rope, first: usize, last: usize, characters: &[char])
        requires
            last < usize::MAX,
        ensures
            text_of(*final(text)) == prepended(
                text_of(*old(text)),
                characters@,
                first as nat,
                last as nat,
            ),
            final(self)@ == old(self)@,
    {
        let ghost before = text_of(*text);
        let ghost cursor = self@;
        let mut line_idx: usize = first;
        while line_idx <= last && line_idx <= text.len_lines()
            invariant
                last < usize::MAX,
                self@ == cursor,
                prepended(text_of(*text), characters@, line_idx as nat, last as nat) == prepended(
                    before,
                    characters@,
                    first as nat,
                    last as nat,
                ),
            decreases last + 1 - line_idx,
        {
            proof {
                lemma_line_start(text_of(*text), line_idx as nat);
            }
            let index: usize = text.line_to_char(line_idx);
            self.internal_insert_chars_at_index(text, index, characters);
            line_idx = line_idx + 1;
        }
    }

    /// Moves the cursor and the anchor of its selection along after `grown`
    /// characters were put in front of the lines `first` to `last`.
    fn follow_prepend(&mut self, text: &Rope, first: usize, last: usize, grown: usize)
        ensures
            final(self)@ == cursor_after_prepend(
                old(self)@,
                text_of(*text),
                first as nat,
                last as nat,
                grown as int,
            ),
            old(self)@.anchor is Some ==> final(self)@.aligned(text_of(*text)),
            final(self)@.anchor matches Some(anchor) ==> old(self)@.anchor matches Some(was)
                && anchor <= was + grown,
    {
        match self.anchor() {
            Some(anchor) => {
                let span: usize = if last > first {
                    last - first
                } else {
                    1
                };
                let share: usize = grown / span;
                assert(share <= grown) by (nonlinear_arith)
                    requires
                        share == grown / span,
                        span >= 1,
                ;
                let selection = self.selection();
                if selection.end == self.start() {
                    // the anchor lies in front of the cursor
                    move_horizontally(text, self, Direction::Forward, grown.saturating_sub(1));
                    self.set_anchor(anchor.saturating_add(share));
                } else {
                    // the anchor lies behind the cursor
                    move_horizontally(text, self, Direction::Forward, share.saturating_sub(1));
                    self.set_anchor(anchor.saturating_add(grown));
                }
            },
            None => {},
        }
    }

    /// Puts `characters` in front of every line that the selection touches,
    /// from the first to the last, and moves the cursor and the anchor of the
    /// selection along with the text they were on.
    pub fn prepend_selection(&mut self, text: &mut Rope, characters: &[char]) -> (diff:
        OpaqueDiff)
        ensures
            prepends_to_selection(
                old(self)@,
                text_of(*old(text)),
                characters@,
                final(self)@,
                text_of(*final(text)),
                diff,
            ),
            diff.net_change() == text_of(*final(text)).len() - text_of(*old(text)).len(),
            no_line_breaks(characters@) ==> diff.describes(
                text_of(*old(text)),
                text_of(*final(text)),
            ),
            old(self)@.in_bounds(text_of(*old(text))) ==> final(self)@.in_bounds(
                text_of(*final(text)),
            ),
            old(self)@.anchor is Some ==> final(self)@.aligned(text_of(*final(text))),
    {
        let ghost before = text_of(*text);
        let len: usize = text.len_chars();
        let bytes: usize = text.char_to_byte(len);
        let lines: usize = text.len_lines();
        let (selection_start, selection_end) = self.selection_in(text);
        let first_line_idx: usize = text.char_to_line(selection_start);
        let last_line_idx: usize = text.char_to_line(selection_end);
        proof {
            lemma_line_of_in_range(before, selection_start as int);
            lemma_line_of_in_range(before, selection_end as int);
            lemma_line_of_monotone(before, selection_start as int, selection_end as int);
            lemma_line_start(before, first_line_idx as nat);
            lemma_line_start(before, last_line_idx as nat);
            lemma_line_start(before, (last_line_idx + 1) as nat);
            lemma_span_end(before, first_line_idx as nat, last_line_idx as nat);
        }
        let start_of_first_line_idx: usize = text.line_to_char(first_line_idx);
        let end_of_last_line_idx: usize = if last_line_idx + 1 >= lines {
            len
        } else {
            text.line_to_char(last_line_idx + 1) - 1
        };
        proof {
            lemma_byte_offset_split(
                before,
                start_of_first_line_idx as int,
                end_of_last_line_idx as int,
            );
            lemma_byte_offset_bound(before, end_of_last_line_idx as int);
            lemma_byte_offset_bound(before, len as int);
        }
        let old_byte_length: usize = text.char_to_byte(end_of_last_line_idx) - text.char_to_byte(
            start_of_first_line_idx,
        );
        let old_char_length: usize = end_of_last_line_idx - start_of_first_line_idx;

        self.prepend_lines(text, first_line_idx, last_line_idx, characters);

        let ghost after = text_of(*text);
        let new_len: usize = text.len_chars();
        proof {
            lemma_prepended_grows(before, characters@, first_line_idx as nat, last_line_idx as nat);
            lemma_byte_offset_bound(after, new_len as int);
        }
        let num_chars: usize = new_len - len;
        let num_bytes: usize = text.char_to_byte(new_len) - bytes;

        self.follow_prepend(text, first_line_idx, last_line_idx, num_chars);

        let new_lines: usize = text.len_lines();
        let first_now: usize = if first_line_idx > new_lines {
            new_lines
        } else {
            first_line_idx
        };
        proof {
            lemma_line_start(after, first_now as nat);
        }
        let char_index: usize = text.line_to_char(first_now);
        let diff = OpaqueDiff::new(
            text.char_to_byte(char_index),
            old_byte_length,
            old_byte_length + num_bytes,
            char_index,
            old_char_length,
            old_char_length + num_chars,
        );
        proof {
            if no_line_breaks(characters@) {
                lemma_prepend_selection_described(
                    old(self)@,
                    before,
                    characters@,
                    self@,
                    after,
                    diff,
                );
            }
        }
        diff
    }

    /// The length of the whitespace that one step of unindenting takes away
    /// at `line_start`: one for a tab; otherwise the number of spaces there, up
    /// to the width of a tab; and nothing where the buffer ends at `line_start`
    /// or less than the width of a tab behind it. The buffer stays as it is.
    pub fn length_of_leading_whitespace(&self, text: &mut Rope, line_start: usize) -> (length:
        usize)
        ensures
            length == leading_whitespace(text_of(*old(text)), line_start as int),
            *final(text) == *old(text),
    {
        let ghost s = text_of(*text);
        let len: usize = text.len_chars();
        match text.get_char(line_start) {
            Some(first) => {
                if first == '\t' {
                    1
                } else if len - line_start < TAB_WIDTH {
                    0
                } else {
                    let mut count: usize = 0;
                    let mut scanning: bool = true;
                    while scanning && count < TAB_WIDTH
                        invariant
                            s == text_of(*text),
                            count <= TAB_WIDTH,
                            len == s.len(),
                            line_start + TAB_WIDTH <= len,
                            leading_spaces(s, line_start as int, TAB_WIDTH as nat) == count
                                + if scanning {
                                leading_spaces(s, line_start + count, (TAB_WIDTH - count) as nat)
                            } else {
                                0
                            },
                        decreases TAB_WIDTH - count + if scanning { 1int } else { 0int },
                    {
                        match text.get_char(line_start + count) {
                            Some(c) => {
                                if c == ' ' {
                                    count = count + 1;
                                } else {
                                    scanning = false;
                                }
                            },
                            None => {
                                scanning = false;
                            },
                        }
                    }
                    count
                }
            },
            None => 0,
        }
    }

    /// Takes the leading whitespace away from the line that the cursor starts
    /// on, and leaves a fresh cursor on what now begins that line. With a
    /// selection in progress the leading whitespace of every selected line
    /// goes, as [`Cursor::unindent_selection`] does it.
    pub fn unindent(&mut self, text: &mut Rope) -> (operation: DeleteOperation)
        ensures
            old(self)@.anchor is None ==> ({
                let before = text_of(*old(text));
                let after = text_of(*final(text));
                let from = line_begin(before, clamp(before, old(self)@.start));
                let to = from + leading_whitespace(before, from);
                if from == to {
                    nothing_deleted(operation, before, after, old(self)@, final(self)@)
                } else {
                    &&& is_deletion(operation, before, after, from, to)
                    &&& final(self)@ == CursorView::at(after, from)
                    &&& final(self)@.aligned(after)
                }
            }),
            old(self)@.anchor is Some ==> unindents_selection(
                old(self)@,
                text_of(*old(text)),
                final(self)@,
                text_of(*final(text)),
                operation,
            ),
            operation.diff.net_change() == text_of(*final(text)).len() - text_of(*old(text)).len(),
            old(self)@.anchor is None || no_lone_returns(text_of(*old(text)))
                ==> operation.diff.describes(text_of(*old(text)), text_of(*final(text))),
            (old(self)@.anchor is None && old(self)@.in_bounds(text_of(*old(text))))
                ==> final(self)@.in_bounds(text_of(*final(text))),
    {
        if self.anchor().is_some() {
            self.unindent_selection(text)
        } else {
            let len: usize = text.len_chars();
            let at: usize = if self.start() > len {
                len
            } else {
                self.start()
            };
            proof {
                lemma_line_of_in_range(text_of(*text), at as int);
                lemma_line_begin(text_of(*text), at as int);
                lemma_leading_whitespace(text_of(*text), line_begin(text_of(*text), at as int));
            }
            let line_start: usize = text.line_to_char(text.char_to_line(at));
            let count: usize = self.length_of_leading_whitespace(text, line_start);
            self.delete_forward_from_index(text, line_start, count)
        }
    }

    /// Takes the leading whitespace away from each of the lines `first` to
    /// `last`.
    fn unindent_lines(&mut self, text: &mut Rope, first: usize, last: usize)
        requires
            last < usize::MAX,
        ensures
            text_of(*final(text)) == unindented(text_of(*old(text)), first as nat, last as nat),
            final(self)@ == old(self)@,
    {
        let ghost before = text_of(*text);
        let ghost cursor = self@;
        let mut line_idx: usize = first;
        while line_idx <= last && line_idx < text.len_lines()
            invariant
                last < usize::MAX,
                self@ == cursor,
                unindented(text_of(*text), line_idx as nat, last as nat) == unindented(
                    before,
                    first as nat,
                    last as nat,
                ),
            decreases last + 1 - line_idx,
        {
            proof {
                lemma_line_start(text_of(*text), line_idx as nat);
                lemma_leading_whitespace(
                    text_of(*text),
                    line_start(text_of(*text), line_idx as nat),
                );
            }
            // the whitespace lies inside the rope, whose length is a `usize`
            let _len: usize = text.len_chars();
            let char_idx: usize = text.line_to_char(line_idx);
            let length: usize = self.length_of_leading_whitespace(text, char_idx);
            remove_range(text, char_idx, char_idx + length);
            line_idx = line_idx + 1;
        }
    }

    /// Moves the cursor and the anchor of its selection along after `removed`
    /// characters were taken away from the lines `first` to `last`.
    fn follow_unindent(&mut self, text: &mut Rope, first: usize, last: usize, removed: usize)
        ensures
            final(self)@ == cursor_after_unindent(
                old(self)@,
                text_of(*old(text)),
                first as nat,
                last as nat,
                removed as int,
            ),
            old(self)@.anchor is Some ==> final(self)@.aligned(text_of(*old(text))),
            *final(text) == *old(text),
    {
        match self.anchor() {
            Some(anchor) => {
                let span: usize = if last > first {
                    last - first
                } else {
                    1
                };
                let head_move_count: usize = removed / span;
                let len: usize = text.len_chars();
                let selection = self.selection();
                if selection.end == self.start() {
                    // the anchor lies in front of the cursor
                    let cursor_char_idx: usize = if self.start() > len {
                        len
                    } else {
                        self.start()
                    };
                    proof {
                        lemma_line_of_in_range(text_of(*text), cursor_char_idx as int);
                        lemma_line_begin(text_of(*text), cursor_char_idx as int);
                    }
                    let start_of_cursor_line: usize = text.line_to_char(
                        text.char_to_line(cursor_char_idx),
                    );
                    let in_line: usize = cursor_char_idx - start_of_cursor_line;
                    let move_distance: usize = if removed <= in_line {
                        removed
                    } else {
                        in_line
                    };
                    move_horizontally(text, self, Direction::Backward, move_distance);
                    if anchor >= head_move_count {
                        self.set_anchor(anchor - head_move_count);
                    }
                } else {
                    // the anchor lies behind the cursor
                    let selection_start: usize = if selection.start > len {
                        len
                    } else {
                        selection.start
                    };
                    let probe: usize = text.char_to_line(selection_start);
                    let cursor_line_whitespace: usize = self.length_of_leading_whitespace(
                        text,
                        probe,
                    );
                    let move_distance: usize = if cursor_line_whitespace >= head_move_count {
                        head_move_count
                    } else {
                        0
                    };
                    move_horizontally(text, self, Direction::Backward, move_distance);
                    if anchor >= removed {
                        self.set_anchor(anchor - removed);
                    }
                }
            },
            None => {},
        }
    }

    /// Takes the leading whitespace away from every line that the selection
    /// touches, from the first to the last, and moves the cursor and the anchor
    /// of the selection back by what went away in front of them.
    pub fn unindent_selection(&mut self, text: &mut Rope) -> (operation: DeleteOperation)
        ensures
            unindents_selection(
                old(self)@,
                text_of(*old(text)),
                final(self)@,
                text_of(*final(text)),
                operation,
            ),
            operation.diff.net_change() == text_of(*final(text)).len() - text_of(*old(text)).len(),
            no_lone_returns(text_of(*old(text))) ==> operation.diff.describes(
                text_of(*old(text)),
                text_of(*final(text)),
            ),
            old(self)@.anchor is Some ==> final(self)@.aligned(text_of(*final(text))),
    {
        let ghost before = text_of(*text);
        let len: usize = text.len_chars();
        // the lengths in the diff stay below the length of the rope in bytes
        // and the line numbers below its number of lines
        let _bytes: usize = text.char_to_byte(len);
        let _lines: usize = text.len_lines();
        let (selection_start, selection_end) = self.selection_in(text);
        let first_line_idx: usize = text.char_to_line(selection_start);
        let last_line_idx: usize = text.char_to_line(selection_end);
        proof {
            lemma_line_of_in_range(before, selection_start as int);
            lemma_line_of_in_range(before, selection_end as int);
            lemma_line_of_monotone(before, selection_start as int, selection_end as int);
            lemma_byte_offset_bound(before, len as int);
            lemma_unindented_shrinks(before, first_line_idx as nat, last_line_idx as nat);
        }

        self.unindent_lines(text, first_line_idx, last_line_idx);

        let ghost after = text_of(*text);
        let new_len: usize = text.len_chars();
        let new_lines: usize = text.len_lines();
        let total_chars_removed: usize = len - new_len;

        // the span of the lines as they are now
        let first_now: usize = if first_line_idx > new_lines {
            new_lines
        } else {
            first_line_idx
        };
        proof {
            lemma_line_start(after, first_line_idx as nat);
            lemma_line_start(after, last_line_idx as nat);
            lemma_line_start(after, (last_line_idx + 1) as nat);
            lemma_line_start(after, first_now as nat);
            lemma_span_end(after, first_line_idx as nat, last_line_idx as nat);
        }
        let final_grapheme_start: usize = text.line_to_char(first_now);
        let final_grapheme_end: usize = if last_line_idx + 1 >= new_lines {
            new_len
        } else {
            text.line_to_char(last_line_idx + 1) - 1
        };
        let deleted = copy_range(text, final_grapheme_start, final_grapheme_end);
        proof {
            lemma_byte_offset_split(after, final_grapheme_start as int, final_grapheme_end as int);
            lemma_byte_offset_bound(after, final_grapheme_end as int);
        }
        let byte_start: usize = text.char_to_byte(final_grapheme_start);
        let byte_end: usize = text.char_to_byte(final_grapheme_end);
        let new_byte_length: usize = byte_end - byte_start;
        let new_char_length: usize = final_grapheme_end - final_grapheme_start;
        let diff = OpaqueDiff::new(
            byte_start,
            new_byte_length + total_chars_removed,
            new_byte_length,
            final_grapheme_start,
            new_char_length + total_chars_removed,
            new_char_length,
        );

        self.follow_unindent(text, first_line_idx, last_line_idx, total_chars_removed);

        let operation = DeleteOperation { diff, deleted };
        proof {
            if no_lone_returns(before) {
                lemma_unindent_selection_described(old(self)@, before, self@, after, operation);
            }
        }
        operation
    }
}

} // verus!
