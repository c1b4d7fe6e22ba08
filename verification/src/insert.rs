//! The insertions a cursor offers. Each puts characters into the buffer and
//! hands back the record of the edit.

use crate::cursor::{Cursor, CursorView};
use crate::diff::OpaqueDiff;
use crate::graphemes::clamp;
use crate::indent::prepends_to_selection;
use crate::text::{
    byte_len, byte_offset, lemma_byte_offset_split, lemma_line_begin, lemma_line_of_in_range,
    line_begin, no_line_breaks, text_of, utf8_len, with_inserted,
};
use ropey::Rope;
use vstd::prelude::*;

verus! {

/// Whether `diff` is the record of putting the characters `inserted` in front
/// of position `at` of the text `before`, which gave the text `after`.
pub open spec fn is_insertion(
    diff: OpaqueDiff,
    before: Seq<char>,
    after: Seq<char>,
    at: int,
    inserted: Seq<char>,
) -> bool {
    &&& 0 <= at <= before.len()
    &&& after == with_inserted(before, at, inserted)
    &&& diff.char_index == at
    &&& diff.old_char_length == 0
    &&& diff.new_char_length == inserted.len()
    &&& diff.byte_index == byte_offset(before, at)
    &&& diff.old_byte_length == 0
    &&& diff.new_byte_length == byte_len(inserted)
}

/// The diff of an insertion is an exact record of it, and its net change is
/// the change of the buffer's length.
pub proof fn lemma_insertion_described(
    diff: OpaqueDiff,
    before: Seq<char>,
    after: Seq<char>,
    at: int,
    inserted: Seq<char>,
)
    requires
        is_insertion(diff, before, after, at, inserted),
    ensures
        diff.describes(before, after),
        diff.net_change() == after.len() - before.len(),
{
    let end = at + inserted.len();
    assert(after.subrange(0, at) =~= before.subrange(0, at));
    assert(after.subrange(end, after.len() as int) =~= before.subrange(at, before.len() as int));
    assert(after.subrange(at, end) =~= inserted);
    assert(before.subrange(at, at) =~= Seq::<char>::empty());
}

/// Inserting one character is inserting the text made of that character.
pub proof fn lemma_insert_one(s: Seq<char>, at: int, c: char)
    requires
        0 <= at <= s.len(),
    ensures
        s.insert(at, c) == with_inserted(s, at, seq![c]),
        byte_len(seq![c]) == crate::text::char_bytes(c),
{
    assert(s.insert(at, c) =~= with_inserted(s, at, seq![c]));
    assert(seq![c].drop_last() =~= Seq::<char>::empty());
    assert(byte_len(seq![c].drop_last()) == 0);
}

impl Cursor {
    /// Inserts `character` in front of the cursor's start, which is first
    /// clamped into the buffer. The selection is given up; the cursor's range
    /// stays as it is.
    pub fn insert_char(&mut self, text: &mut Rope, character: char) -> (diff: OpaqueDiff)
        ensures
            is_insertion(
                diff,
                text_of(*old(text)),
                text_of(*final(text)),
                clamp(text_of(*old(text)), old(self)@.start),
                seq![character],
            ),
            final(self)@ == (CursorView { anchor: None, ..old(self)@ }),
            diff.describes(text_of(*old(text)), text_of(*final(text))),
            diff.net_change() == text_of(*final(text)).len() - text_of(*old(text)).len(),
            old(self)@.in_bounds(text_of(*old(text))) ==> final(self)@.in_bounds(
                text_of(*final(text)),
            ),
    {
        let ghost before = text_of(*text);
        self.clear_selection();
        let len: usize = text.len_chars();
        let at: usize = if self.start() > len {
            len
        } else {
            self.start()
        };
        text.insert_char(at, character);
        proof {
            lemma_insert_one(before, at as int, character);
            assert(text_of(*text).subrange(0, at as int) =~= before.subrange(0, at as int));
        }
        let diff = OpaqueDiff::new(text.char_to_byte(at), 0, utf8_len(character), at, 0, 1);
        proof {
            lemma_insertion_described(diff, before, text_of(*text), at as int, seq![character]);
        }
        diff
    }

    /// Inserts `characters` in front of the cursor's start, which is first
    /// clamped into the buffer. The selection is given up; the cursor's range
    /// stays as it is.
    pub fn insert_chars(&mut self, text: &mut Rope, characters: &[char]) -> (diff: OpaqueDiff)
        ensures
            is_insertion(
                diff,
                text_of(*old(text)),
                text_of(*final(text)),
                clamp(text_of(*old(text)), old(self)@.start),
                characters@,
            ),
            final(self)@ == (CursorView { anchor: None, ..old(self)@ }),
            diff.describes(text_of(*old(text)), text_of(*final(text))),
            diff.net_change() == text_of(*final(text)).len() - text_of(*old(text)).len(),
            old(self)@.in_bounds(text_of(*old(text))) ==> final(self)@.in_bounds(
                text_of(*final(text)),
            ),
    {
        self.clear_selection();
        let index: usize = self.start();
        self.insert_chars_at_index(text, index, characters)
    }

    /// Inserts `characters` at the start of the line that the cursor starts
    /// on. With a selection in progress the characters are instead put in front
    /// of every selected line, as [`Cursor::prepend_selection`] does.
    pub fn prepend_chars(&mut self, text: &mut Rope, characters: &[char]) -> (diff: OpaqueDiff)
        ensures
            old(self)@.anchor is None ==> is_insertion(
                diff,
                text_of(*old(text)),
                text_of(*final(text)),
                line_begin(text_of(*old(text)), clamp(text_of(*old(text)), old(self)@.start)),
                characters@,
            ) && final(self)@ == old(self)@,
            old(self)@.anchor is Some ==> prepends_to_selection(
                old(self)@,
                text_of(*old(text)),
                characters@,
                final(self)@,
                text_of(*final(text)),
                diff,
            ),
            diff.net_change() == text_of(*final(text)).len() - text_of(*old(text)).len(),
            old(self)@.anchor is None || no_line_breaks(characters@) ==> diff.describes(
                text_of(*old(text)),
                text_of(*final(text)),
            ),
            old(self)@.in_bounds(text_of(*old(text))) ==> final(self)@.in_bounds(
                text_of(*final(text)),
            ),
    {
        let len: usize = text.len_chars();
        let at: usize = if self.start() > len {
            len
        } else {
            self.start()
        };
        proof {
            lemma_line_of_in_range(text_of(*text), at as int);
            lemma_line_begin(text_of(*text), at as int);
        }
        let line_start: usize = text.line_to_char(text.char_to_line(at));
        self.insert_chars_at_index(text, line_start, characters)
    }

    /// Inserts `characters` in front of position `index`, which is first
    /// clamped into the buffer; the cursor stays as it is. With a selection in
    /// progress `index` is not used: the characters are put in front of every
    /// selected line, as [`Cursor::prepend_selection`] does.
    pub fn insert_chars_at_index(
        &mut self,
        text: &mut Rope,
        index: usize,
        characters: &[char],
    ) -> (diff: OpaqueDiff)
        ensures
            old(self)@.anchor is None ==> is_insertion(
                diff,
                text_of(*old(text)),
                text_of(*final(text)),
                clamp(text_of(*old(text)), index as int),
                characters@,
            ) && final(self)@ == old(self)@,
            old(self)@.anchor is Some ==> prepends_to_selection(
                old(self)@,
                text_of(*old(text)),
                characters@,
                final(self)@,
                text_of(*final(text)),
                diff,
            ),
            diff.net_change() == text_of(*final(text)).len() - text_of(*old(text)).len(),
            old(self)@.anchor is None || no_line_breaks(characters@) ==> diff.describes(
                text_of(*old(text)),
                text_of(*final(text)),
            ),
            old(self)@.in_bounds(text_of(*old(text))) ==> final(self)@.in_bounds(
                text_of(*final(text)),
            ),
    {
        if self.anchor().is_some() {
            return self.prepend_selection(text, characters);
        }
        let ghost before = text_of(*text);
        let len: usize = text.len_chars();
        let at: usize = if index > len {
            len
        } else {
            index
        };
        let (num_bytes, num_chars) = self.internal_insert_chars_at_index(text, at, characters);
        proof {
            assert(text_of(*text).subrange(0, at as int) =~= before.subrange(0, at as int));
        }
        let diff = OpaqueDiff::new(text.char_to_byte(at), 0, num_bytes, at, 0, num_chars);
        proof {
            lemma_insertion_described(diff, before, text_of(*text), at as int, characters@);
        }
        diff
    }

    /// Puts `characters`, one after the other, in front of position `index`.
    /// Gives the number of bytes and the number of characters put in.
    pub(crate) fn internal_insert_chars_at_index(
        &mut self,
        text: &mut Rope,
        index: usize,
        characters: &[char],
    ) -> (counts: (usize, usize))
        requires
            index <= text_of(*old(text)).len(),
        ensures
            text_of(*final(text)) == with_inserted(text_of(*old(text)), index as int, characters@),
            counts.0 == byte_len(characters@),
            counts.1 == characters@.len(),
            final(self)@ == old(self)@,
    {
        let ghost before = text_of(*text);
        let count: usize = characters.len();
        let mut offset: usize = 0;
        proof {
            assert(with_inserted(before, index as int, characters@.subrange(0, 0)) =~= before);
        }
        while offset < count
            invariant
                offset <= count,
                count == characters@.len(),
                index <= before.len(),
                text_of(*text) == with_inserted(
                    before,
                    index as int,
                    characters@.subrange(0, offset as int),
                ),
            decreases count - offset,
        {
            // the place lies inside the rope, whose length is a `usize`
            let _len: usize = text.len_chars();
            text.insert_char(index + offset, characters[offset]);
            proof {
                assert(text_of(*text) =~= with_inserted(
                    before,
                    index as int,
                    characters@.subrange(0, offset + 1),
                ));
            }
            offset = offset + 1;
        }
        let _len: usize = text.len_chars();
        proof {
            assert(characters@.subrange(0, count as int) =~= characters@);
            lemma_byte_offset_split(text_of(*text), index as int, index + count);
            assert(text_of(*text).subrange(index as int, index + count) =~= characters@);
        }
        let num_bytes: usize = text.char_to_byte(index + count) - text.char_to_byte(index);
        (num_bytes, count)
    }
}

} // verus!
