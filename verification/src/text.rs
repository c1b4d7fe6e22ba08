//! The text buffer the editing core works on, and its mathematical model.
//!
//! The buffer is a [`ropey::Rope`]. Verus sees it as an opaque value whose
//! contents are the sequence of characters [`text_of`]. Every rope method the
//! core calls is given a contract over that sequence here; these contracts are
//! believed, not proved. They describe the rope as it is built with its
//! default features, where the line breaks are LF, VT, FF, CR, NEL, LS, PS and
//! the pair CR LF.

use ropey::Rope;
use vstd::prelude::*;

verus! {

#[verifier::external_type_specification]
#[verifier::external_body]
pub struct ExRope(ropey::Rope);

/// The characters a rope holds, in order.
pub uninterp spec fn text_of(rope: Rope) -> Seq<char>;

// ---------------------------------------------------------------------------
// The model: lines and bytes of a sequence of characters
// ---------------------------------------------------------------------------
/// Whether `c` is one of the characters that end a line.
pub open spec fn is_line_break(c: char) -> bool {
    c == '\u{0A}' || c == '\u{0B}' || c == '\u{0C}' || c == '\u{0D}' || c == '\u{85}' || c
        == '\u{2028}' || c == '\u{2029}'
}

/// Whether a line ends just in front of position `i`, so that a new line
/// starts at `i`. A carriage return directly followed by a line feed does not
/// end a line by itself: the pair is one line break.
pub open spec fn ends_line(s: Seq<char>, i: int) -> bool {
    &&& 0 < i <= s.len()
    &&& is_line_break(s[i - 1])
    &&& !(s[i - 1] == '\u{0D}' && i < s.len() && s[i] == '\u{0A}')
}

/// The number of line breaks that end at or before position `i`: the index
/// of the line that position `i` lies on.
pub open spec fn line_of(s: Seq<char>, i: int) -> nat
    decreases i,
{
    if i <= 0 {
        0
    } else {
        line_of(s, i - 1) + if ends_line(s, i) {
            1nat
        } else {
            0nat
        }
    }
}

/// The number of lines of `s`: one more than the number of its line breaks.
pub open spec fn line_count(s: Seq<char>) -> nat {
    line_of(s, s.len() as int) + 1
}

/// The first line start behind position `i`, or the length of `s` if no line
/// starts behind `i`.
pub open spec fn next_line_start(s: Seq<char>, i: int) -> int
    decreases s.len() - i,
{
    if i >= s.len() {
        s.len() as int
    } else if ends_line(s, i + 1) {
        i + 1
    } else {
        next_line_start(s, i + 1)
    }
}

/// The position at which line `line` starts. For every `line` from
/// `line_count(s)` on this is the length of `s`.
pub open spec fn line_start(s: Seq<char>, line: nat) -> int
    decreases line,
{
    if line == 0 {
        0
    } else {
        next_line_start(s, line_start(s, (line - 1) as nat))
    }
}

/// The start of the line that position `i` lies on.
pub open spec fn line_begin(s: Seq<char>, i: int) -> int {
    line_start(s, line_of(s, i))
}

/// The number of bytes that the UTF-8 encoding of `c` takes.
pub open spec fn char_bytes(c: char) -> nat {
    if (c as u32) < 0x80 {
        1
    } else if (c as u32) < 0x800 {
        2
    } else if (c as u32) < 0x10000 {
        3
    } else {
        4
    }
}

/// The number of bytes that the UTF-8 encoding of `s` takes.
pub open spec fn byte_len(s: Seq<char>) -> nat
    decreases s.len(),
{
    if s.len() == 0 {
        0
    } else {
        byte_len(s.drop_last()) + char_bytes(s.last())
    }
}

/// The byte offset of position `i`: the encoded length of what precedes it.
pub open spec fn byte_offset(s: Seq<char>, i: int) -> nat {
    byte_len(s.subrange(0, i))
}

/// `s` with the characters of `[from, to)` taken out.
pub open spec fn without_range(s: Seq<char>, from: int, to: int) -> Seq<char> {
    s.subrange(0, from) + s.subrange(to, s.len() as int)
}

/// `s` with `t` put in front of position `at`.
pub open spec fn with_inserted(s: Seq<char>, at: int, t: Seq<char>) -> Seq<char> {
    s.subrange(0, at) + t + s.subrange(at, s.len() as int)
}

/// `n`, or the largest value of `usize` if `n` is beyond it.
pub open spec fn saturated(n: int) -> int {
    if n > usize::MAX {
        usize::MAX as int
    } else {
        n
    }
}

/// `a - b`, or zero where that would be negative.
pub open spec fn minus(a: int, b: int) -> int {
    if a > b {
        a - b
    } else {
        0
    }
}

// ---------------------------------------------------------------------------
// What the rope promises
// ---------------------------------------------------------------------------
/// `Rope::new`: a rope without characters.
pub assume_specification[ Rope::new ]() -> (rope: Rope)
    ensures
        text_of(rope) == Seq::<char>::empty(),
;

/// `Clone::clone` of a rope: a rope with the same characters.
pub assume_specification[ <Rope as Clone>::clone ](rope: &Rope) -> (copy: Rope)
    ensures
        text_of(copy) == text_of(*rope),
;

/// `Rope::len_chars`: the number of characters in the rope.
pub assume_specification[ Rope::len_chars ](rope: &Rope) -> (n: usize)
    ensures
        n == text_of(*rope).len(),
;

/// `Rope::len_lines`: the number of line breaks in the rope, plus one.
pub assume_specification[ Rope::len_lines ](rope: &Rope) -> (n: usize)
    ensures
        n == line_count(text_of(*rope)),
;

/// `Rope::char_to_line`: the index of the line that the character position
/// lies on, which is the number of line breaks that end at or before it. The
/// position may be the length of the rope; past that the rope panics.
pub assume_specification[ Rope::char_to_line ](rope: &Rope, char_idx: usize) -> (line: usize)
    requires
        char_idx <= text_of(*rope).len(),
    ensures
        line == line_of(text_of(*rope), char_idx as int),
;

/// `Rope::line_to_char`: the position of the first character of the line.
/// The line index may be the number of lines, which gives the length of the
/// rope; past that the rope panics.
pub assume_specification[ Rope::line_to_char ](rope: &Rope, line_idx: usize) -> (char_idx: usize)
    requires
        line_idx <= line_count(text_of(*rope)),
    ensures
        char_idx == line_start(text_of(*rope), line_idx as nat),
;

/// `Rope::char_to_byte`: the byte offset of the character position in the
/// rope's UTF-8 text. The position may be the length of the rope; past that
/// the rope panics.
pub assume_specification[ Rope::char_to_byte ](rope: &Rope, char_idx: usize) -> (byte_idx: usize)
    requires
        char_idx <= text_of(*rope).len(),
    ensures
        byte_idx == byte_offset(text_of(*rope), char_idx as int),
;

/// `Rope::get_char`: the character at the position, or `None` from the length
/// of the rope on.
pub assume_specification[ Rope::get_char ](rope: &Rope, char_idx: usize) -> (c: Option<char>)
    ensures
        c == if char_idx < text_of(*rope).len() {
            Some(text_of(*rope)[char_idx as int])
        } else {
            None
        },
;

/// `Rope::insert_char`: puts `ch` in front of position `char_idx`. The rope
/// panics when the position lies past its length.
pub assume_specification[ Rope::insert_char ](rope: &mut Rope, char_idx: usize, ch: char)
    requires
        char_idx <= text_of(*old(rope)).len(),
    ensures
        text_of(*final(rope)) == text_of(*old(rope)).insert(char_idx as int, ch),
;

/// `Rope::remove` with the range `from..to`: takes the characters of that
/// range out. The rope panics when `from > to` or when `to` lies past its
/// length.
#[verifier::external_body]
pub(crate) fn remove_range(rope: &mut Rope, from: usize, to: usize)
    requires
        from <= to <= text_of(*old(rope)).len(),
    ensures
        text_of(*final(rope)) == without_range(text_of(*old(rope)), from as int, to as int),
{
    rope.remove(from..to)
}

/// `Rope::slice` with the range `from..to`, made a rope of its own by
/// `Rope::from`: the characters of that range. The rope panics when
/// `from > to` or when `to` lies past its length.
#[verifier::external_body]
pub(crate) fn copy_range(rope: &Rope, from: usize, to: usize) -> (copy: Rope)
    requires
        from <= to <= text_of(*rope).len(),
    ensures
        text_of(copy) == text_of(*rope).subrange(from as int, to as int),
{
    Rope::from(rope.slice(from..to))
}

// ---------------------------------------------------------------------------
// Facts about the model
// ---------------------------------------------------------------------------
/// The line index never exceeds the position, and grows with it.
pub proof fn lemma_line_of_monotone(s: Seq<char>, i: int, j: int)
    requires
        i <= j,
    ensures
        line_of(s, i) <= line_of(s, j),
        line_of(s, j) <= if j < 0 {
            0
        } else {
            j
        },
    decreases j,
{
    if j > 0 {
        if i < j {
            lemma_line_of_monotone(s, i, j - 1);
        } else {
            lemma_line_of_monotone(s, j - 1, j - 1);
        }
    }
}

/// Past the end of `s` no line ends, so the line index stays that of the end.
pub proof fn lemma_line_of_past_end(s: Seq<char>, i: int)
    requires
        i >= s.len(),
    ensures
        line_of(s, i) == line_of(s, s.len() as int),
    decreases i,
{
    if i > s.len() {
        lemma_line_of_past_end(s, i - 1);
    }
}

/// Every position of `s` lies on one of its lines.
pub proof fn lemma_line_of_in_range(s: Seq<char>, i: int)
    ensures
        line_of(s, i) < line_count(s),
{
    if i <= s.len() {
        lemma_line_of_monotone(s, i, s.len() as int);
    } else {
        lemma_line_of_past_end(s, i);
    }
}

/// What `next_line_start` finds: the first line start behind `i`, with no
/// line start in between, or the end of `s`.
pub proof fn lemma_next_line_start(s: Seq<char>, i: int)
    requires
        0 <= i <= s.len(),
    ensures
        i <= next_line_start(s, i) <= s.len(),
        i < s.len() ==> i < next_line_start(s, i),
        ends_line(s, next_line_start(s, i)) || (next_line_start(s, i) == s.len() && line_of(
            s,
            s.len() as int,
        ) == line_of(s, i)),
        i < s.len() && ends_line(s, next_line_start(s, i)) ==> line_of(s, next_line_start(s, i))
            == line_of(s, i) + 1,
        forall|k: int| i <= k < next_line_start(s, i) ==> line_of(s, k) == line_of(s, i),
    decreases s.len() - i,
{
    if i >= s.len() {
    } else if ends_line(s, i + 1) {
    } else {
        lemma_next_line_start(s, i + 1);
        let j = next_line_start(s, i + 1);
        assert(line_of(s, i + 1) == line_of(s, i));
        assert forall|k: int| i <= k < j implies line_of(s, k) == line_of(s, i) by {
            if k > i {
                assert(i + 1 <= k < next_line_start(s, i + 1));
            }
        }
    }
}

/// Where the lines start: inside `s`, in rising order, each at a position whose
/// line index is the line's own, and at the end of `s` from `line_count(s)` on.
pub proof fn lemma_line_start(s: Seq<char>, line: nat)
    ensures
        0 <= line_start(s, line) <= s.len(),
        line < line_count(s) ==> line_of(s, line_start(s, line)) == line,
        line > 0 && line < line_count(s) ==> ends_line(s, line_start(s, line)),
        line >= line_count(s) ==> line_start(s, line) == s.len(),
        line_start(s, line) <= line_start(s, line + 1),
        line + 1 < line_count(s) ==> line_start(s, line) < line_start(s, line + 1),
    decreases line,
{
    let total = line_of(s, s.len() as int);
    if line == 0 {
        lemma_next_line_start(s, 0);
    } else {
        let prev = (line - 1) as nat;
        lemma_line_start(s, prev);
        let p = line_start(s, prev);
        lemma_next_line_start(s, p);
        let q = line_start(s, line);
        assert(q == next_line_start(s, p));
        lemma_next_line_start(s, q);
        if line < line_count(s) {
            assert(line_of(s, p) == prev);
            if !ends_line(s, q) {
                assert(line_of(s, s.len() as int) == prev);
            }
            if p >= s.len() {
                assert(p == s.len());
            }
        } else {
            if prev < line_count(s) {
                // `prev` is the last line: no line starts behind it
                assert(prev == total);
                if q < s.len() {
                    assert(ends_line(s, q));
                    lemma_line_of_monotone(s, q, s.len() as int);
                }
            }
        }
        if line + 1 < line_count(s) {
            if q >= s.len() {
                assert(q == s.len());
            }
        }
    }
}

/// Line starts are ordered as their line indices are.
pub proof fn lemma_line_start_monotone(s: Seq<char>, a: nat, b: nat)
    requires
        a <= b,
    ensures
        line_start(s, a) <= line_start(s, b),
    decreases b - a,
{
    if a < b {
        lemma_line_start_monotone(s, a, (b - 1) as nat);
        lemma_line_start(s, (b - 1) as nat);
    }
}

/// The line that a position lies on starts at or before the position, and
/// the next line starts behind it, unless the position is the end of `s`.
pub proof fn lemma_line_begin(s: Seq<char>, i: int)
    requires
        0 <= i <= s.len(),
    ensures
        0 <= line_begin(s, i) <= i,
        line_of(s, line_begin(s, i)) == line_of(s, i),
        i < s.len() ==> i < line_start(s, line_of(s, i) + 1),
    decreases i,
{
    let line = line_of(s, i);
    lemma_line_of_in_range(s, i);
    lemma_line_start(s, line);
    let p = line_start(s, line);
    if p > i {
        // a line start behind `i` has a line index above that of `i`
        lemma_line_of_monotone(s, i, p - 1);
        assert(ends_line(s, p));
        assert(line_of(s, p) == line_of(s, p - 1) + 1);
    }
    if i < s.len() {
        let q = line_start(s, line + 1);
        lemma_line_start(s, line + 1);
        if line + 1 < line_count(s) {
            if q <= i {
                lemma_line_of_monotone(s, q, i);
            }
        }
    }
}

/// Whether no character of `t` ends a line.
pub open spec fn no_line_breaks(t: Seq<char>) -> bool {
    forall|i: int| 0 <= i < t.len() ==> !is_line_break(#[trigger] t[i])
}

/// Whether a line starts at position `p` of `s`.
pub open spec fn starts_line(s: Seq<char>, p: int) -> bool {
    p == 0 || ends_line(s, p)
}

/// A position at which a line starts is the start of the line it lies on.
pub proof fn lemma_line_start_unique(s: Seq<char>, q: int)
    requires
        0 <= q <= s.len(),
        starts_line(s, q),
    ensures
        line_start(s, line_of(s, q)) == q,
{
    let line = line_of(s, q);
    let p = line_start(s, line);
    lemma_line_of_in_range(s, q);
    lemma_line_start(s, line);
    if q < p {
        lemma_line_of_monotone(s, q, p - 1);
    } else if p < q {
        lemma_line_of_monotone(s, p, q - 1);
    }
}

/// How the line index of a position changes when text without line breaks
/// is put in at the start `p` of a line: in front of `p` nothing changes, the
/// text put in lies on the line that starts at `p`, and behind it everything
/// has moved on by the length of that text.
pub proof fn lemma_line_of_inserted(s: Seq<char>, p: int, t: Seq<char>, i: int)
    requires
        0 <= p <= s.len(),
        starts_line(s, p),
        no_line_breaks(t),
        0 <= i <= s.len() + t.len(),
    ensures
        line_of(with_inserted(s, p, t), i) == if i <= p {
            line_of(s, i)
        } else if i <= p + t.len() {
            line_of(s, p)
        } else {
            line_of(s, i - t.len())
        },
        0 < i <= p ==> ends_line(with_inserted(s, p, t), i) == ends_line(s, i),
        i > p + t.len() ==> ends_line(with_inserted(s, p, t), i) == ends_line(s, i - t.len()),
    decreases i,
{
    let s1 = with_inserted(s, p, t);
    let n = t.len() as int;
    if n == 0 {
        assert(s1 =~= s);
    } else if i > 0 {
        lemma_line_of_inserted(s, p, t, i - 1);
        if i <= p {
            assert(s1[i - 1] == s[i - 1]);
            if i < p {
                assert(s1[i] == s[i]);
            } else {
                assert(s1[i] == t[0]);
                assert(!is_line_break(t[0]));
            }
        } else if i <= p + n {
            assert(s1[i - 1] == t[i - 1 - p]);
            assert(!is_line_break(t[i - 1 - p]));
        } else {
            assert(s1[i - 1] == s[i - 1 - n]);
            if i < s1.len() {
                assert(s1[i] == s[i - n]);
            }
        }
    }
}

/// Putting text without line breaks in at the start of line `k` leaves the
/// number of lines as it is, leaves the lines up to `k` where they start, and
/// moves the start of every later line on by the length of that text.
pub proof fn lemma_line_starts_after_insert(s: Seq<char>, k: nat, t: Seq<char>, j: nat)
    requires
        k < line_count(s),
        no_line_breaks(t),
    ensures
        line_count(with_inserted(s, line_start(s, k), t)) == line_count(s),
        line_start(with_inserted(s, line_start(s, k), t), j) == line_start(s, j) + if j > k {
            t.len()
        } else {
            0
        },
{
    let p = line_start(s, k);
    let s1 = with_inserted(s, p, t);
    let n = t.len() as int;
    lemma_line_start(s, k);
    lemma_line_of_inserted(s, p, t, s.len() + n);
    lemma_line_of_inserted(s, p, t, p);
    assert(line_count(s1) == line_count(s)) by {
        if n == 0 {
            assert(s1 =~= s);
        } else if s.len() + n <= p + n {
            // the text was put in at the end
            lemma_line_of_past_end(s, p);
        }
    }
    let q = line_start(s, j);
    lemma_line_start(s, j);
    lemma_line_start(s1, j);
    if j >= line_count(s) {
    } else if j <= k {
        lemma_line_start_monotone(s, j, k);
        lemma_line_of_inserted(s, p, t, q);
        lemma_line_start_unique(s1, q);
    } else {
        if q <= p {
            lemma_line_of_monotone(s, q, p);
        }
        lemma_line_of_inserted(s, p, t, q + n);
        lemma_line_start_unique(s1, q + n);
    }
}

/// Whether every carriage return of `s` is directly followed by a line feed,
/// so that no line of `s` is ended by a carriage return alone.
pub open spec fn no_lone_returns(s: Seq<char>) -> bool {
    forall|i: int|
        0 <= i < s.len() && #[trigger] s[i] == '\u{0D}' ==> i + 1 < s.len() && s[i + 1]
            == '\u{0A}'
}

/// No line ends inside a stretch of characters that are no line breaks.
pub proof fn lemma_line_of_over_no_breaks(s: Seq<char>, p: int, w: int)
    requires
        0 <= p,
        0 <= w,
        p + w <= s.len(),
        no_line_breaks(s.subrange(p, p + w)),
    ensures
        line_of(s, p + w) == line_of(s, p),
    decreases w,
{
    if w > 0 {
        assert(no_line_breaks(s.subrange(p, p + w - 1))) by {
            assert forall|i: int| 0 <= i < w - 1 implies !is_line_break(
                #[trigger] s.subrange(p, p + w - 1)[i],
            ) by {
                assert(s.subrange(p, p + w)[i] == s[p + i]);
            }
        }
        lemma_line_of_over_no_breaks(s, p, w - 1);
        assert(s.subrange(p, p + w)[w - 1] == s[p + w - 1]);
    }
}

/// How the line index of a position changes when `w` characters that are no
/// line breaks are taken out at the start `p` of a line, in a text in which no
/// carriage return stands alone: in front of `p` nothing changes, and behind
/// it everything has moved back by `w`.
pub proof fn lemma_line_of_removed(s: Seq<char>, p: int, w: int, i: int)
    requires
        0 <= p,
        0 <= w,
        p + w <= s.len(),
        starts_line(s, p),
        no_line_breaks(s.subrange(p, p + w)),
        no_lone_returns(s),
        0 <= i <= s.len() - w,
    ensures
        line_of(without_range(s, p, p + w), i) == if i <= p {
            line_of(s, i)
        } else {
            line_of(s, i + w)
        },
        0 < i <= p ==> ends_line(without_range(s, p, p + w), i) == ends_line(s, i),
        i > p ==> ends_line(without_range(s, p, p + w), i) == ends_line(s, i + w),
    decreases i,
{
    let s1 = without_range(s, p, p + w);
    if w == 0 {
        assert(s1 =~= s);
    } else if i > 0 {
        lemma_line_of_removed(s, p, w, i - 1);
        if i <= p {
            assert(s1[i - 1] == s[i - 1]);
            if i < p {
                assert(s1[i] == s[i]);
            } else {
                // the line break in front of `p` is no carriage return
                assert(s.subrange(p, p + w)[0] == s[p]);
                assert(s[p - 1] != '\u{0D}');
            }
        } else {
            assert(s1[i - 1] == s[i - 1 + w]);
            if i < s1.len() {
                assert(s1[i] == s[i + w]);
            }
            if i == p + 1 {
                lemma_line_of_over_no_breaks(s, p, w);
            }
        }
    }
}

/// Taking `w` characters that are no line breaks out at the start of line
/// `k`, in a text in which no carriage return stands alone, leaves the number
/// of lines as it is, leaves the lines up to `k` where they start, moves the
/// start of every later line back by `w`, and leaves no carriage return
/// alone.
pub proof fn lemma_line_starts_after_remove(s: Seq<char>, k: nat, w: int, j: nat)
    requires
        k < line_count(s),
        0 <= w,
        line_start(s, k) + w <= s.len(),
        no_line_breaks(s.subrange(line_start(s, k), line_start(s, k) + w)),
        no_lone_returns(s),
    ensures
        line_count(without_range(s, line_start(s, k), line_start(s, k) + w)) == line_count(s),
        line_start(without_range(s, line_start(s, k), line_start(s, k) + w), j) == line_start(s, j)
            - if j > k {
            w
        } else {
            0
        },
        no_lone_returns(without_range(s, line_start(s, k), line_start(s, k) + w)),
        line_start(s, k) + w <= line_start(s, k + 1),
{
    let p = line_start(s, k);
    let s1 = without_range(s, p, p + w);
    lemma_line_start(s, k);
    lemma_line_start(s, k + 1);
    lemma_line_of_removed(s, p, w, s.len() - w);
    lemma_line_of_over_no_breaks(s, p, w);
    if w == 0 {
        assert(s1 =~= s);
    } else {
        assert(no_lone_returns(s1)) by {
            assert(s.subrange(p, p + w)[0] == s[p]);
            assert forall|i: int| 0 <= i < s1.len() && #[trigger] s1[i] == '\u{0D}' implies i + 1
                < s1.len() && s1[i + 1] == '\u{0A}' by {
                if i < p {
                    assert(s[i] == '\u{0D}');
                    if i + 1 < p {
                        assert(s1[i + 1] == s[i + 1]);
                    }
                } else {
                    assert(s[i + w] == '\u{0D}');
                    assert(s1[i + 1] == s[i + 1 + w]);
                }
            }
        }
        // the next line starts behind what is taken out
        let next = line_start(s, k + 1);
        if next < p + w {
            if k + 1 < line_count(s) {
                assert(s.subrange(p, p + w)[next - 1 - p] == s[next - 1]);
            }
        }
    }
    let q = line_start(s, j);
    lemma_line_start(s, j);
    lemma_line_start(s1, j);
    if j >= line_count(s) {
    } else if j <= k {
        lemma_line_start_monotone(s, j, k);
        lemma_line_of_removed(s, p, w, q);
        lemma_line_start_unique(s1, q);
    } else {
        lemma_line_start_monotone(s, k + 1, j);
        lemma_line_of_removed(s, p, w, q - w);
        if w > 0 {
            if q - w <= p {
                // then `q` would end a line on one of the characters taken out
                if q > p {
                    assert(s.subrange(p, p + w)[q - 1 - p] == s[q - 1]);
                } else {
                    lemma_line_of_monotone(s, q, p);
                }
            }
        } else if q <= p {
            lemma_line_of_monotone(s, q, p);
        }
        lemma_line_start_unique(s1, q - w);
    }
}

/// The last characters of a concatenation are the last characters of its
/// second part, as far as that part reaches.
pub proof fn lemma_tail_of_concat(a: Seq<char>, b: Seq<char>, kept: int)
    requires
        0 <= kept <= b.len(),
    ensures
        (a + b).subrange((a + b).len() - kept, (a + b).len() as int) == b.subrange(
            b.len() - kept,
            b.len() as int,
        ),
{
    assert((a + b).subrange((a + b).len() - kept, (a + b).len() as int) =~= b.subrange(
        b.len() - kept,
        b.len() as int,
    ));
}

/// The last characters of the end of a text are the last characters of the
/// text.
pub proof fn lemma_tail_of_end(s: Seq<char>, from: int, kept: int)
    requires
        0 <= from <= s.len(),
        0 <= kept <= s.len() - from,
    ensures
        s.subrange(from, s.len() as int).subrange(s.len() - from - kept, s.len() - from)
            == s.subrange(s.len() - kept, s.len() as int),
{
    assert(s.subrange(from, s.len() as int).subrange(s.len() - from - kept, s.len() - from)
        =~= s.subrange(s.len() - kept, s.len() as int));
}

/// The encoded length of a concatenation is the sum of the encoded lengths.
pub proof fn lemma_byte_len_concat(a: Seq<char>, b: Seq<char>)
    ensures
        byte_len(a + b) == byte_len(a) + byte_len(b),
    decreases b.len(),
{
    if b.len() == 0 {
        assert(a + b =~= a);
    } else {
        lemma_byte_len_concat(a, b.drop_last());
        assert((a + b).drop_last() =~= a + b.drop_last());
        assert((a + b).last() == b.last());
    }
}

/// Byte offsets grow with positions, by the encoded length of what lies
/// between them.
pub proof fn lemma_byte_offset_split(s: Seq<char>, i: int, j: int)
    requires
        0 <= i <= j <= s.len(),
    ensures
        byte_offset(s, j) == byte_offset(s, i) + byte_len(s.subrange(i, j)),
{
    lemma_byte_len_concat(s.subrange(0, i), s.subrange(i, j));
    assert(s.subrange(0, i) + s.subrange(i, j) =~= s.subrange(0, j));
}

/// The byte offset of a position never exceeds the encoded length of the
/// text, which it is at the end of the text.
pub proof fn lemma_byte_offset_bound(s: Seq<char>, i: int)
    requires
        0 <= i <= s.len(),
    ensures
        byte_offset(s, i) <= byte_len(s),
        byte_offset(s, s.len() as int) == byte_len(s),
{
    lemma_byte_offset_split(s, i, s.len() as int);
    assert(s.subrange(0, s.len() as int) =~= s);
}

/// Putting text in makes the text longer by what was put in, in characters
/// and in bytes.
pub proof fn lemma_with_inserted_lengths(s: Seq<char>, at: int, t: Seq<char>)
    requires
        0 <= at <= s.len(),
    ensures
        with_inserted(s, at, t).len() == s.len() + t.len(),
        byte_len(with_inserted(s, at, t)) == byte_len(s) + byte_len(t),
{
    lemma_byte_len_concat(s.subrange(0, at), t);
    lemma_byte_len_concat(s.subrange(0, at) + t, s.subrange(at, s.len() as int));
    lemma_byte_len_concat(s.subrange(0, at), s.subrange(at, s.len() as int));
    assert(s.subrange(0, at) + s.subrange(at, s.len() as int) =~= s);
}

/// Taking text out makes the text shorter by what was taken out, in
/// characters and in bytes.
pub proof fn lemma_without_range_lengths(s: Seq<char>, from: int, to: int)
    requires
        0 <= from <= to <= s.len(),
    ensures
        without_range(s, from, to).len() == s.len() - (to - from),
        byte_len(without_range(s, from, to)) == byte_len(s) - byte_len(s.subrange(from, to)),
{
    lemma_byte_len_concat(s.subrange(0, from), s.subrange(to, s.len() as int));
    lemma_byte_len_concat(s.subrange(0, from), s.subrange(from, to));
    lemma_byte_len_concat(
        s.subrange(0, from) + s.subrange(from, to),
        s.subrange(to, s.len() as int),
    );
    assert(s.subrange(0, from) + s.subrange(from, to) + s.subrange(to, s.len() as int) =~= s);
}

/// The number of bytes that the UTF-8 encoding of `c` takes.
pub fn utf8_len(c: char) -> (n: usize)
    ensures
        n == char_bytes(c),
{
    let code: u32 = c as u32;
    if code < 0x80 {
        1
    } else if code < 0x800 {
        2
    } else if code < 0x10000 {
        3
    } else {
        4
    }
}

} // verus!
