//! The record that every edit leaves behind: which stretch of the buffer it
//! replaced, and by how much, counted both in bytes and in characters.

use crate::text::{byte_len, byte_offset, text_of};
use ropey::Rope;
use vstd::prelude::*;

verus! {

/// One contiguous edited region of a buffer.
///
/// The region starts at `char_index` (at byte `byte_index`). Before the edit
/// it held `old_char_length` characters (`old_byte_length` bytes); after the
/// edit it holds `new_char_length` characters (`new_byte_length` bytes).
#[derive(Clone, Copy, Debug, PartialEq, Eq, Structural)]
pub struct OpaqueDiff {
    pub byte_index: usize,
    pub old_byte_length: usize,
    pub new_byte_length: usize,
    pub char_index: usize,
    pub old_char_length: usize,
    pub new_char_length: usize,
}

impl OpaqueDiff {
    /// By how many characters the edit made the buffer longer.
    pub open spec fn net_change(self) -> int {
        self.new_char_length - self.old_char_length
    }

    /// Whether the record has all lengths at zero: nothing happened.
    pub open spec fn is_noop(self) -> bool {
        &&& self.old_byte_length == 0
        &&& self.new_byte_length == 0
        &&& self.old_char_length == 0
        &&& self.new_char_length == 0
    }

    /// Whether the record is an exact account of the step from the text
    /// `before` to the text `after`: outside the region the two agree, and
    /// the region has the recorded lengths in both encodings.
    pub open spec fn describes(self, before: Seq<char>, after: Seq<char>) -> bool {
        let at = self.char_index as int;
        let old_end = at + self.old_char_length;
        let new_end = at + self.new_char_length;
        &&& old_end <= before.len()
        &&& new_end <= after.len()
        &&& after.subrange(0, at) == before.subrange(0, at)
        &&& after.subrange(new_end, after.len() as int) == before.subrange(
            old_end,
            before.len() as int,
        )
        &&& self.byte_index == byte_offset(before, at)
        &&& self.old_byte_length == byte_len(before.subrange(at, old_end))
        &&& self.new_byte_length == byte_len(after.subrange(at, new_end))
    }

    /// The record with the given fields.
    pub fn new(
        byte_index: usize,
        old_byte_length: usize,
        new_byte_length: usize,
        char_index: usize,
        old_char_length: usize,
        new_char_length: usize,
    ) -> (diff: Self)
        ensures
            diff == (OpaqueDiff {
                byte_index,
                old_byte_length,
                new_byte_length,
                char_index,
                old_char_length,
                new_char_length,
            }),
    {
        OpaqueDiff {
            byte_index,
            old_byte_length,
            new_byte_length,
            char_index,
            old_char_length,
            new_char_length,
        }
    }

    /// The record of an edit that changed nothing.
    pub fn empty() -> (diff: Self)
        ensures
            diff == (OpaqueDiff {
                byte_index: 0,
                old_byte_length: 0,
                new_byte_length: 0,
                char_index: 0,
                old_char_length: 0,
                new_char_length: 0,
            }),
            diff.is_noop(),
    {
        OpaqueDiff::new(0, 0, 0, 0, 0, 0)
    }

    /// Whether the record says that nothing changed.
    pub fn is_empty(&self) -> (b: bool)
        ensures
            b == self.is_noop(),
    {
        self.old_byte_length == 0 && self.new_byte_length == 0 && self.old_char_length == 0
            && self.new_char_length == 0
    }

    /// The record of the edit that takes this one back: the same region with
    /// the old and the new lengths exchanged.
    pub fn reverse(&self) -> (diff: Self)
        ensures
            diff == (OpaqueDiff {
                byte_index: self.byte_index,
                old_byte_length: self.new_byte_length,
                new_byte_length: self.old_byte_length,
                char_index: self.char_index,
                old_char_length: self.new_char_length,
                new_char_length: self.old_char_length,
            }),
    {
        OpaqueDiff::new(
            self.byte_index,
            self.new_byte_length,
            self.old_byte_length,
            self.char_index,
            self.new_char_length,
            self.old_char_length,
        )
    }
}

/// What a deletion hands back: the record of the edit, and the text it
/// relates to as a rope of its own.
#[derive(Clone, Debug)]
pub struct DeleteOperation {
    pub diff: OpaqueDiff,
    pub deleted: Rope,
}

impl DeleteOperation {
    /// Whether this is the result of a deletion that deleted nothing.
    pub open spec fn is_noop(self) -> bool {
        self.diff.is_noop() && self.diff.char_index == 0 && self.diff.byte_index == 0 && text_of(
            self.deleted,
        ).len() == 0
    }

    /// The result of a deletion that deleted nothing.
    pub fn empty() -> (operation: Self)
        ensures
            operation.is_noop(),
    {
        DeleteOperation { diff: OpaqueDiff::empty(), deleted: Rope::new() }
    }
}

/// An exact record has as its net change the change of the buffer's length.
pub proof fn lemma_described_net_change(diff: OpaqueDiff, before: Seq<char>, after: Seq<char>)
    requires
        diff.describes(before, after),
    ensures
        diff.net_change() == after.len() - before.len(),
{
    let at = diff.char_index as int;
    let old_end = at + diff.old_char_length;
    let new_end = at + diff.new_char_length;
    assert(after.subrange(new_end, after.len() as int).len() == after.len() - new_end);
    assert(before.subrange(old_end, before.len() as int).len() == before.len() - old_end);
}

/// A record is exact if the two texts agree in front of its region and
/// behind it, and its lengths change as the lengths of the text do, in
/// characters and in bytes, one of its byte lengths being that of its region.
pub proof fn lemma_described_by_ends(
    diff: OpaqueDiff,
    before: Seq<char>,
    after: Seq<char>,
    old_end: int,
)
    requires
        diff.char_index <= old_end <= before.len(),
        diff.char_index + diff.old_char_length == old_end,
        diff.new_char_length - diff.old_char_length == after.len() - before.len(),
        after.subrange(0, diff.char_index as int) == before.subrange(0, diff.char_index as int),
        after.len() >= before.len() - old_end,
        after.subrange(after.len() - (before.len() - old_end), after.len() as int)
            == before.subrange(old_end, before.len() as int),
        diff.byte_index == byte_offset(before, diff.char_index as int),
        diff.new_byte_length - diff.old_byte_length == byte_len(after) - byte_len(before),
        diff.old_byte_length == byte_len(before.subrange(diff.char_index as int, old_end))
            || diff.new_byte_length == byte_len(
            after.subrange(
                diff.char_index as int,
                after.len() - (before.len() - old_end),
            ),
        ),
    ensures
        diff.describes(before, after),
{
    let at = diff.char_index as int;
    let new_end = after.len() - (before.len() - old_end);
    assert(new_end == at + diff.new_char_length);
    crate::text::lemma_byte_len_concat(before.subrange(0, at), before.subrange(at, old_end));
    crate::text::lemma_byte_len_concat(
        before.subrange(0, at) + before.subrange(at, old_end),
        before.subrange(old_end, before.len() as int),
    );
    assert(before.subrange(0, at) + before.subrange(at, old_end) + before.subrange(
        old_end,
        before.len() as int,
    ) =~= before);
    crate::text::lemma_byte_len_concat(after.subrange(0, at), after.subrange(at, new_end));
    crate::text::lemma_byte_len_concat(
        after.subrange(0, at) + after.subrange(at, new_end),
        after.subrange(new_end, after.len() as int),
    );
    assert(after.subrange(0, at) + after.subrange(at, new_end) + after.subrange(
        new_end,
        after.len() as int,
    ) =~= after);
}

/// The reverse of an exact record of the step from `before` to `after` is an
/// exact record of the step back.
pub proof fn lemma_reverse_describes(diff: OpaqueDiff, before: Seq<char>, after: Seq<char>)
    requires
        diff.describes(before, after),
    ensures
        (OpaqueDiff {
            byte_index: diff.byte_index,
            old_byte_length: diff.new_byte_length,
            new_byte_length: diff.old_byte_length,
            char_index: diff.char_index,
            old_char_length: diff.new_char_length,
            new_char_length: diff.old_char_length,
        }).describes(after, before),
{
}

} // verus!
