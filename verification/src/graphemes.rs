//! Grapheme clusters of a text buffer: where they begin and end, and how
//! wide a stretch of text is on screen.
//!
//! Which positions separate two clusters is decided by the
//! `unicode-segmentation` crate, and how many columns a cluster takes by
//! `unicode-width`. Both answers are functions of the text alone; they are
//! given names here ([`segmentation_break`], [`cluster_columns`]) and the
//! functions of this module are specified over those names.
//!
//! A question about a place in the text is first put with a small part of
//! the text round that place in hand. Where the segmentation needs to see
//! more, the part is made larger until it can answer.

use crate::text::{copy_range, text_of};
use ropey::Rope;
use std::borrow::Cow;
use unicode_segmentation::GraphemeCursor;
use unicode_width::UnicodeWidthStr;
use vstd::prelude::*;

verus! {

/// An offset into a text buffer, counted in characters.
pub type CharIndex = usize;

/// The distance between two tab stops, in columns.
pub const TAB_WIDTH: usize = 4;

/// Whether the segmentation into extended grapheme clusters breaks the text
/// `s` at position `i`, as `GraphemeCursor::is_boundary` answers for a cursor
/// placed at `i` that is shown all of `s`.
pub uninterp spec fn segmentation_break(s: Seq<char>, i: int) -> bool;

/// The number of columns that `UnicodeWidthStr::width` gives the text `s`.
pub uninterp spec fn cluster_columns(s: Seq<char>) -> nat;

/// Whether position `i` of `s` is a grapheme-cluster boundary. The start and
/// the end of the text always are.
pub open spec fn is_boundary(s: Seq<char>, i: int) -> bool {
    i == 0 || i == s.len() || (0 < i < s.len() && segmentation_break(s, i))
}

/// The nearest boundary behind position `i`, or the end of `s` for a position
/// at or past the end.
pub open spec fn boundary_after(s: Seq<char>, i: int) -> int
    decreases s.len() - i,
{
    if i >= s.len() {
        s.len() as int
    } else if i < 0 {
        0
    } else if is_boundary(s, i + 1) {
        i + 1
    } else {
        boundary_after(s, i + 1)
    }
}

/// The nearest boundary in front of position `i`, or the start of `s` for a
/// position at or in front of the start.
pub open spec fn boundary_before(s: Seq<char>, i: int) -> int
    decreases i,
{
    if i <= 0 {
        0
    } else if i > s.len() {
        s.len() as int
    } else if is_boundary(s, i - 1) {
        i - 1
    } else {
        boundary_before(s, i - 1)
    }
}

/// The boundary at position `i`, or else the nearest boundary in front of
/// `i`: where the cluster starts that holds the character at `i`.
pub open spec fn boundary_at(s: Seq<char>, i: int) -> int {
    if is_boundary(s, i) {
        i
    } else {
        boundary_before(s, i)
    }
}

/// The cluster that holds position `i`, which is first clamped into `s`, as
/// the pair of the boundaries that it lies between: it starts at the boundary
/// at `i`, or else at the nearest boundary in front of `i`, and ends at the
/// next boundary behind its start. At the end of `s` it holds nothing.
pub open spec fn cluster_at(s: Seq<char>, i: int) -> (int, int) {
    let start = boundary_at(s, clamp(s, i));
    (start, boundary_after(s, start))
}

/// Position `i` moved forward over `n` clusters, stopping at the end of `s`.
pub open spec fn forward_by(s: Seq<char>, i: int, n: nat) -> int
    decreases n,
{
    if n == 0 {
        i
    } else {
        forward_by(s, boundary_after(s, i), (n - 1) as nat)
    }
}

/// Position `i` moved backward over `n` clusters, stopping at the start of `s`.
pub open spec fn backward_by(s: Seq<char>, i: int, n: nat) -> int
    decreases n,
{
    if n == 0 {
        i
    } else {
        backward_by(s, boundary_before(s, i), (n - 1) as nat)
    }
}

/// `i` clamped into the positions of `s`.
pub open spec fn clamp(s: Seq<char>, i: int) -> int {
    if i < 0 {
        0
    } else if i > s.len() {
        s.len() as int
    } else {
        i
    }
}

/// The column reached from column `column` by one cluster: a tab goes to the
/// next tab stop, any other cluster adds its own columns.
pub open spec fn column_after(column: nat, cluster: Seq<char>) -> nat {
    if cluster == seq!['\t'] {
        (column + TAB_WIDTH - column % (TAB_WIDTH as nat)) as nat
    } else {
        column + cluster_columns(cluster)
    }
}

/// The column reached at the end of `s` when position `i` is at column
/// `column`, going cluster by cluster.
pub open spec fn columns_from(s: Seq<char>, i: int, column: nat) -> nat
    decreases s.len() - i,
{
    let end = boundary_after(s, i);
    if 0 <= i < end <= s.len() {
        columns_from(s, end, column_after(column, s.subrange(i, end)))
    } else {
        column
    }
}

/// The display width of the text `s`: the column that its end is at when its
/// start is at column 0.
pub open spec fn display_width(s: Seq<char>) -> nat {
    columns_from(s, 0, 0)
}

// ---------------------------------------------------------------------------
// What the outside crates are asked
// ---------------------------------------------------------------------------
//
// A `GraphemeCursor` is told how long the whole text is and is then shown a
// part of it, here the characters of `[from, to)`, which must hold the place
// that is asked about. Either it answers, and then for the whole text; or it
// says that it needs to see more, which `None` stands for below. Shown the
// whole text it always answers.
/// `GraphemeCursor::is_boundary` for a cursor at `char_idx`, in extended
/// mode, shown the characters of `[from, to)`: whether the segmentation of
/// the whole text breaks there.
#[verifier::external_body]
fn breaks_at(text: &Rope, char_idx: usize, from: usize, to: usize) -> (answer: Option<bool>)
    requires
        from <= char_idx < to <= text_of(*text).len(),
    ensures
        answer matches Some(b) ==> b == segmentation_break(text_of(*text), char_idx as int),
        from == 0 && to == text_of(*text).len() ==> answer is Some,
{
    let window = Cow::<str>::from(text.slice(from..to));
    let mut cursor = GraphemeCursor::new(text.char_to_byte(char_idx), text.len_bytes(), true);
    cursor.is_boundary(&window, text.char_to_byte(from)).ok()
}

/// `GraphemeCursor::next_boundary` for a cursor at `char_idx`, in extended
/// mode, shown the characters of `[from, to)`. The cursor steps forward one
/// character at a time and stops at the first position that is a boundary,
/// the end of the text being one.
#[verifier::external_body]
fn next_break(text: &Rope, char_idx: usize, from: usize, to: usize) -> (answer: Option<usize>)
    requires
        from <= char_idx < to <= text_of(*text).len(),
    ensures
        answer matches Some(found) ==> found == boundary_after(text_of(*text), char_idx as int),
        from == 0 && to == text_of(*text).len() ==> answer is Some,
{
    let window = Cow::<str>::from(text.slice(from..to));
    let mut cursor = GraphemeCursor::new(text.char_to_byte(char_idx), text.len_bytes(), true);
    let found = cursor.next_boundary(&window, text.char_to_byte(from));
    found.ok().flatten().map(|byte_idx| text.byte_to_char(byte_idx))
}

/// `GraphemeCursor::prev_boundary` for a cursor at `char_idx`, in extended
/// mode, shown the characters of `[from, to)`. The cursor steps backward one
/// character at a time and stops at the first position that is a boundary,
/// the start of the text being one.
#[verifier::external_body]
fn prev_break(text: &Rope, char_idx: usize, from: usize, to: usize) -> (answer: Option<usize>)
    requires
        from <= char_idx <= to <= text_of(*text).len(),
        0 < char_idx,
    ensures
        answer matches Some(found) ==> found == boundary_before(text_of(*text), char_idx as int),
        from == 0 && to == text_of(*text).len() ==> answer is Some,
{
    let window = Cow::<str>::from(text.slice(from..to));
    let mut cursor = GraphemeCursor::new(text.char_to_byte(char_idx), text.len_bytes(), true);
    let found = cursor.prev_boundary(&window, text.char_to_byte(from));
    found.ok().flatten().map(|byte_idx| text.byte_to_char(byte_idx))
}

/// `UnicodeWidthStr::width` of the characters in `[from, to)`: the number of
/// columns they take.
#[verifier::external_body]
fn columns_of(text: &Rope, from: usize, to: usize) -> (columns: usize)
    requires
        from <= to <= text_of(*text).len(),
    ensures
        columns == cluster_columns(text_of(*text).subrange(from as int, to as int)),
{
    UnicodeWidthStr::width(Cow::<str>::from(text.slice(from..to)).as_ref())
}

// ---------------------------------------------------------------------------
// Facts about boundaries
// ---------------------------------------------------------------------------
/// The boundary behind a position is a boundary, lies behind the position
/// unless that is the end, and no boundary lies strictly in between.
pub proof fn lemma_boundary_after(s: Seq<char>, i: int)
    requires
        0 <= i <= s.len(),
    ensures
        i <= boundary_after(s, i) <= s.len(),
        i < s.len() ==> i < boundary_after(s, i),
        is_boundary(s, boundary_after(s, i)),
        forall|k: int| i < k < boundary_after(s, i) ==> !is_boundary(s, k),
    decreases s.len() - i,
{
    if i < s.len() && !is_boundary(s, i + 1) {
        lemma_boundary_after(s, i + 1);
    }
}

/// The boundary in front of a position is a boundary, lies in front of the
/// position unless that is the start, and no boundary lies strictly in
/// between.
pub proof fn lemma_boundary_before(s: Seq<char>, i: int)
    requires
        0 <= i <= s.len(),
    ensures
        0 <= boundary_before(s, i) <= i,
        0 < i ==> boundary_before(s, i) < i,
        is_boundary(s, boundary_before(s, i)),
        forall|k: int| boundary_before(s, i) < k < i ==> !is_boundary(s, k),
    decreases i,
{
    if i > 0 && !is_boundary(s, i - 1) {
        lemma_boundary_before(s, i - 1);
    }
}

/// The cluster that holds a position lies inside the text, between two
/// boundaries, and starts at the position if that is a boundary of the text.
pub proof fn lemma_cluster_at(s: Seq<char>, i: int)
    ensures
        0 <= cluster_at(s, i).0 <= cluster_at(s, i).1 <= s.len(),
        cluster_at(s, i).0 <= clamp(s, i),
        is_boundary(s, cluster_at(s, i).0),
        is_boundary(s, cluster_at(s, i).1),
        is_boundary(s, clamp(s, i)) ==> cluster_at(s, i).0 == clamp(s, i),
{
    lemma_boundary_before(s, clamp(s, i));
    lemma_boundary_after(s, cluster_at(s, i).0);
}

/// Moving forward from a position of the text stays inside the text, never
/// goes backward, and lands on a boundary once a step was made.
pub proof fn lemma_forward_by(s: Seq<char>, i: int, n: nat)
    requires
        0 <= i <= s.len(),
    ensures
        i <= forward_by(s, i, n) <= s.len(),
        n > 0 ==> is_boundary(s, forward_by(s, i, n)),
    decreases n,
{
    if n > 0 {
        lemma_boundary_after(s, i);
        lemma_forward_by(s, boundary_after(s, i), (n - 1) as nat);
    }
}

/// Moving backward from a position of the text stays inside the text, never
/// goes forward, and lands on a boundary once a step was made.
pub proof fn lemma_backward_by(s: Seq<char>, i: int, n: nat)
    requires
        0 <= i <= s.len(),
    ensures
        0 <= backward_by(s, i, n) <= i,
        n > 0 ==> is_boundary(s, backward_by(s, i, n)),
    decreases n,
{
    if n > 0 {
        lemma_boundary_before(s, i);
        lemma_backward_by(s, boundary_before(s, i), (n - 1) as nat);
    }
}

/// Once at the end of the text, moving forward changes nothing.
pub proof fn lemma_forward_at_end(s: Seq<char>, n: nat)
    ensures
        forward_by(s, s.len() as int, n) == s.len(),
    decreases n,
{
    if n > 0 {
        lemma_forward_at_end(s, (n - 1) as nat);
    }
}

/// Once at the start of the text, moving backward changes nothing.
pub proof fn lemma_backward_at_start(s: Seq<char>, n: nat)
    ensures
        backward_by(s, 0, n) == 0,
    decreases n,
{
    if n > 0 {
        lemma_backward_at_start(s, (n - 1) as nat);
    }
}

// ---------------------------------------------------------------------------
// The grapheme index
// ---------------------------------------------------------------------------
/// The number of characters to either side of a place that a cursor is shown
/// at first. Where that is not enough for an answer, it is shown twice as
/// many, and so on up to the whole text.
const WINDOW: usize = 64;

/// The part of a text of `len` characters that reaches `radius` characters
/// to either side of position `at`, as far as the text goes.
pub open spec fn window_around(at: int, radius: int, len: int) -> (int, int) {
    (
        if at > radius {
            at - radius
        } else {
            0
        },
        if radius < len - at {
            at + radius
        } else {
            len
        },
    )
}

/// The part of a text of `len` characters that reaches `radius` characters
/// to either side of position `at`, as far as the text goes.
fn window(at: usize, radius: usize, len: usize) -> (part: (usize, usize))
    requires
        at <= len,
        radius >= 1,
    ensures
        (part.0 as int, part.1 as int) == window_around(at as int, radius as int, len as int),
        part.0 <= at <= part.1 <= len,
        at < len ==> at < part.1,
        radius >= len ==> part.0 == 0 && part.1 == len,
{
    (
        at.saturating_sub(radius),
        if radius < len - at {
            at + radius
        } else {
            len
        },
    )
}

/// Whether `char_idx` is a grapheme-cluster boundary of `text`. A position
/// past the end of the text is none.
pub fn is_grapheme_boundary(text: &Rope, char_idx: CharIndex) -> (b: bool)
    ensures
        b == (char_idx <= text_of(*text).len() && is_boundary(text_of(*text), char_idx as int)),
{
    let len: usize = text.len_chars();
    if char_idx == 0 || char_idx == len {
        return true;
    }
    if char_idx > len {
        return false;
    }
    let mut radius: usize = WINDOW;
    loop
        invariant
            len == text_of(*text).len(),
            0 < char_idx < len,
            radius >= 1,
        decreases
                if radius < len {
                    len - radius
                } else {
                    0
                },
    {
        let (from, to) = window(char_idx, radius, len);
        match breaks_at(text, char_idx, from, to) {
            Some(answer) => {
                return answer;
            },
            None => {
                radius = radius.saturating_add(radius);
            },
        }
    }
}

/// The nearest grapheme-cluster boundary behind `char_idx`, which is first
/// clamped into the text. At the end of the text this is the end itself.
pub fn next_grapheme_boundary(text: &Rope, char_idx: CharIndex) -> (boundary: CharIndex)
    ensures
        boundary == boundary_after(text_of(*text), clamp(text_of(*text), char_idx as int)),
        boundary <= text_of(*text).len(),
        is_boundary(text_of(*text), boundary as int),
{
    let len: usize = text.len_chars();
    proof {
        lemma_boundary_after(text_of(*text), clamp(text_of(*text), char_idx as int));
    }
    if char_idx >= len {
        return len;
    }
    let mut radius: usize = WINDOW;
    loop
        invariant
            len == text_of(*text).len(),
            char_idx < len,
            radius >= 1,
        decreases
                if radius < len {
                    len - radius
                } else {
                    0
                },
    {
        let (from, to) = window(char_idx, radius, len);
        match next_break(text, char_idx, from, to) {
            Some(found) => {
                proof {
                    lemma_boundary_after(text_of(*text), char_idx as int);
                }
                return found;
            },
            None => {
                radius = radius.saturating_add(radius);
            },
        }
    }
}

/// The nearest grapheme-cluster boundary in front of `char_idx`, which is
/// first clamped into the text. At the start of the text this is the start
/// itself.
pub fn prev_grapheme_boundary(text: &Rope, char_idx: CharIndex) -> (boundary: CharIndex)
    ensures
        boundary == boundary_before(text_of(*text), clamp(text_of(*text), char_idx as int)),
        boundary <= text_of(*text).len(),
        boundary <= char_idx,
        is_boundary(text_of(*text), boundary as int),
{
    let len: usize = text.len_chars();
    let at: usize = if char_idx > len {
        len
    } else {
        char_idx
    };
    proof {
        lemma_boundary_before(text_of(*text), at as int);
    }
    if at == 0 {
        return 0;
    }
    let mut radius: usize = WINDOW;
    loop
        invariant
            len == text_of(*text).len(),
            0 < at <= len,
            at == clamp(text_of(*text), char_idx as int),
            radius >= 1,
        decreases
                if radius < len {
                    len - radius
                } else {
                    0
                },
    {
        let (from, to) = window(at, radius, len);
        match prev_break(text, at, from, to) {
            Some(found) => {
                proof {
                    lemma_boundary_before(text_of(*text), at as int);
                }
                return found;
            },
            None => {
                radius = radius.saturating_add(radius);
            },
        }
    }
}

/// The grapheme-cluster boundary at `char_idx`, which is first clamped into
/// the text, or else the nearest boundary in front of it: the start of the
/// cluster that holds the character at `char_idx`.
pub fn grapheme_boundary_at(text: &Rope, char_idx: CharIndex) -> (boundary: CharIndex)
    ensures
        boundary == boundary_at(text_of(*text), clamp(text_of(*text), char_idx as int)),
        boundary <= text_of(*text).len(),
        boundary <= char_idx,
        is_boundary(text_of(*text), boundary as int),
{
    let len: usize = text.len_chars();
    let at: usize = if char_idx > len {
        len
    } else {
        char_idx
    };
    if is_grapheme_boundary(text, at) {
        at
    } else {
        prev_grapheme_boundary(text, at)
    }
}

/// The grapheme cluster that holds the character at `char_idx`, which is
/// first clamped into the text, as the pair of the boundaries that it lies
/// between.
pub fn grapheme_at(text: &Rope, char_idx: CharIndex) -> (cluster: (CharIndex, CharIndex))
    ensures
        (cluster.0 as int, cluster.1 as int) == cluster_at(text_of(*text), char_idx as int),
        cluster.0 <= cluster.1 <= text_of(*text).len(),
        cluster.0 <= char_idx,
        is_boundary(text_of(*text), cluster.0 as int),
        is_boundary(text_of(*text), cluster.1 as int),
{
    let start: usize = grapheme_boundary_at(text, char_idx);
    let end: usize = next_grapheme_boundary(text, start);
    proof {
        lemma_cluster_at(text_of(*text), char_idx as int);
    }
    (start, end)
}

/// The boundary reached from `char_idx`, clamped into the text, by going
/// forward over `count` clusters, or the end of the text if that comes first.
pub fn next_grapheme_boundary_n(text: &Rope, char_idx: CharIndex, count: usize) -> (boundary:
    CharIndex)
    ensures
        boundary == forward_by(
            text_of(*text),
            clamp(text_of(*text), char_idx as int),
            count as nat,
        ),
        boundary <= text_of(*text).len(),
        count > 0 ==> is_boundary(text_of(*text), boundary as int),
{
    let ghost s = text_of(*text);
    let len: usize = text.len_chars();
    let mut at: usize = if char_idx > len {
        len
    } else {
        char_idx
    };
    let mut left: usize = count;
    proof {
        lemma_forward_by(s, at as int, count as nat);
    }
    while left > 0 && at < len
        invariant
            s == text_of(*text),
            len == s.len(),
            at <= len,
            left <= count,
            forward_by(s, at as int, left as nat) == forward_by(
                s,
                clamp(s, char_idx as int),
                count as nat,
            ),
        decreases left,
    {
        at = next_grapheme_boundary(text, at);
        left = left - 1;
    }
    proof {
        if left > 0 {
            lemma_forward_at_end(s, left as nat);
        }
    }
    at
}

/// The boundary reached from `char_idx`, clamped into the text, by going
/// backward over `count` clusters, or the start of the text if that comes
/// first.
pub fn prev_grapheme_boundary_n(text: &Rope, char_idx: CharIndex, count: usize) -> (boundary:
    CharIndex)
    ensures
        boundary == backward_by(
            text_of(*text),
            clamp(text_of(*text), char_idx as int),
            count as nat,
        ),
        boundary <= text_of(*text).len(),
        count > 0 ==> is_boundary(text_of(*text), boundary as int),
{
    let ghost s = text_of(*text);
    let len: usize = text.len_chars();
    let mut at: usize = if char_idx > len {
        len
    } else {
        char_idx
    };
    let mut left: usize = count;
    proof {
        lemma_backward_by(s, at as int, count as nat);
    }
    while left > 0 && at > 0
        invariant
            s == text_of(*text),
            len == s.len(),
            at <= len,
            left <= count,
            backward_by(s, at as int, left as nat) == backward_by(
                s,
                clamp(s, char_idx as int),
                count as nat,
            ),
        decreases left,
    {
        at = prev_grapheme_boundary(text, at);
        left = left - 1;
    }
    proof {
        if left > 0 {
            lemma_backward_at_start(s, left as nat);
        }
    }
    at
}

/// The column reached from column `column` by the cluster that the
/// characters of `[from, to)` make up, or nothing if that column is beyond the
/// largest value of the result type.
pub(crate) fn column_past(text: &Rope, from: CharIndex, to: CharIndex, column: usize) -> (reached:
    Option<usize>)
    requires
        from < to <= text_of(*text).len(),
    ensures
        match reached {
            Some(next) => next == column_after(
                column as nat,
                text_of(*text).subrange(from as int, to as int),
            ),
            None => column_after(column as nat, text_of(*text).subrange(from as int, to as int))
                > usize::MAX,
        },
{
    let is_tab: bool = to - from == 1 && text.get_char(from) == Some('\t');
    proof {
        let cluster = text_of(*text).subrange(from as int, to as int);
        if is_tab {
            assert(cluster =~= seq!['\t']);
        } else if cluster == seq!['\t'] {
            assert(cluster.len() == 1);
            assert(cluster[0] == '\t');
        }
    }
    if is_tab {
        column.checked_add(TAB_WIDTH - column % TAB_WIDTH)
    } else {
        column.checked_add(columns_of(text, from, to))
    }
}

/// The display width of the characters of `text` in `[from, to)`, both ends
/// first clamped into the text and `from` to at most `to`: the sum of the
/// widths of the clusters of that stretch, where a tab reaches to the next
/// tab stop. A width that does not fit the result type is given as the
/// largest value of that type.
pub fn width(text: &Rope, from: CharIndex, to: CharIndex) -> (columns: usize)
    ensures
        columns == {
            let s = text_of(*text);
            let stretch = s.subrange(
                clamp(s, if from <= to {
                    from as int
                } else {
                    to as int
                }),
                clamp(s, to as int),
            );
            if display_width(stretch) <= usize::MAX {
                display_width(stretch)
            } else {
                usize::MAX as nat
            }
        },
{
    let len: usize = text.len_chars();
    let to: usize = if to > len {
        len
    } else {
        to
    };
    let from: usize = if from > to {
        to
    } else {
        from
    };
    let stretch = copy_range(text, from, to);
    let ghost s = text_of(stretch);
    let n: usize = stretch.len_chars();
    let mut at: usize = 0;
    let mut column: usize = 0;
    let ghost mut exact: nat = 0;
    while at < n
        invariant
            s == text_of(stretch),
            n == s.len(),
            at <= n,
            column == if exact <= usize::MAX {
                exact
            } else {
                usize::MAX as nat
            },
            columns_from(s, at as int, exact) == display_width(s),
        decreases n - at,
    {
        proof {
            lemma_boundary_after(s, at as int);
        }
        let end: usize = next_grapheme_boundary(&stretch, at);
        let is_tab: bool = end - at == 1 && stretch.get_char(at) == Some('\t');
        proof {
            let cluster = s.subrange(at as int, end as int);
            if is_tab {
                assert(cluster =~= seq!['\t']);
            } else if cluster == seq!['\t'] {
                assert(cluster.len() == 1);
                assert(cluster[0] == '\t');
            }
            exact = column_after(exact, cluster);
        }
        if is_tab {
            column = column.saturating_add(TAB_WIDTH - column % TAB_WIDTH);
        } else {
            column = column.saturating_add(columns_of(&stretch, at, end));
        }
        at = end;
    }
    column
}

} // verus!
