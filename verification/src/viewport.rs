//! What a window onto a buffer has to decide for itself: which line is the
//! first one shown, whether the edit tree is being looked at, and what the
//! arrow keys then mean.

use crate::text::{lemma_line_start, line_count, line_start, text_of};
use ropey::Rope;
use vstd::prelude::*;

verus! {

/// What a window can be told to do.
#[derive(Clone, Copy, Debug, PartialEq, Eq, Structural)]
pub enum Message {
    CenterCursorVisually,
    ClearSelection,
    ToggleEditTree,
}

/// One of the four arrow keys.
#[derive(Clone, Copy, Debug, PartialEq, Eq, Structural)]
pub enum Arrow {
    Up,
    Down,
    Left,
    Right,
}

/// What an arrow key asks for: a walk through the edit tree while the tree is
/// being looked at, a movement of the cursor otherwise.
#[derive(Clone, Copy, Debug, PartialEq, Eq, Structural)]
pub enum Step {
    Undo,
    Redo,
    PreviousChildRevision,
    NextChildRevision,
    MoveUp,
    MoveDown,
    MoveLeft,
    MoveRight,
}

/// The state of a window onto a buffer.
#[derive(Clone, Copy, Debug, PartialEq, Eq, Structural)]
pub struct Viewport {
    /// The index of the first line shown.
    pub line_offset: usize,
    /// Whether the edit tree is being looked at.
    pub viewing_edit_tree: bool,
}

/// The number of text lines that a frame of the given height shows: all but
/// the one that the status bar takes.
pub open spec fn text_rows(height: usize) -> int {
    if height >= 1 {
        height - 1
    } else {
        0
    }
}

/// The first line shown once line `current_line` was brought into view in a
/// frame of the given height: the window scrolls up to the line if it lies
/// above, down until the line is the last one shown if it lies below, and
/// stays otherwise.
pub open spec fn offset_showing(line_offset: usize, current_line: usize, height: usize) -> int {
    let last_row = if text_rows(height) >= 1 {
        text_rows(height) - 1
    } else {
        0
    };
    if current_line < line_offset {
        current_line as int
    } else if current_line - line_offset > last_row {
        current_line + 1 - text_rows(height)
    } else {
        line_offset as int
    }
}

/// The first line shown once the window was centred on line `line_index` in
/// a frame of the given height. The line comes to the middle of the frame if
/// it is at least half a frame from the start of the buffer and not in the
/// middle already. Otherwise it comes to the top; and if it is at the top
/// already, the window goes to the start of the buffer.
pub open spec fn offset_centred(line_offset: usize, line_index: usize, height: usize) -> int {
    let half = height / 2;
    if line_index >= half && line_offset != line_index - half {
        line_index - half
    } else if line_offset != line_index {
        line_index as int
    } else {
        0
    }
}

/// The number of lines that a window numbers: the lines of the text, not
/// counting a last line that is empty.
pub open spec fn numbered_lines(s: Seq<char>) -> int {
    if line_start(s, (line_count(s) - 1) as nat) < s.len() {
        line_count(s) as int
    } else {
        line_count(s) - 1
    }
}

/// The number of lines of `text` that a window numbers: all of them, not
/// counting a last line that is empty.
pub fn displayed_lines(text: &Rope) -> (count: usize)
    ensures
        count == numbered_lines(text_of(*text)),
{
    let lines: usize = text.len_lines();
    proof {
        lemma_line_start(text_of(*text), (lines - 1) as nat);
    }
    if text.line_to_char(lines - 1) < text.len_chars() {
        lines
    } else {
        lines - 1
    }
}

impl Viewport {
    /// A window at the start of the buffer that does not look at the edit
    /// tree.
    pub fn new() -> (viewport: Self)
        ensures
            viewport == (Viewport { line_offset: 0, viewing_edit_tree: false }),
    {
        Viewport { line_offset: 0, viewing_edit_tree: false }
    }

    /// Scrolls so that line `current_line` is shown in a frame of the given
    /// height, and says whether the window had to scroll.
    pub fn ensure_cursor_in_view(&mut self, current_line: usize, height: usize) -> (scrolled: bool)
        requires
            current_line < usize::MAX,
        ensures
            final(self).line_offset == offset_showing(
                old(self).line_offset,
                current_line,
                height,
            ),
            final(self).viewing_edit_tree == old(self).viewing_edit_tree,
            scrolled == (final(self).line_offset != old(self).line_offset),
            final(self).line_offset <= current_line || text_rows(height) == 0,
            text_rows(height) >= 1 ==> current_line - final(self).line_offset < text_rows(height),
    {
        let num_lines: usize = height.saturating_sub(1);
        if current_line < self.line_offset {
            self.line_offset = current_line;
            true
        } else if current_line - self.line_offset > num_lines.saturating_sub(1) {
            self.line_offset = current_line + 1 - num_lines;
            true
        } else {
            false
        }
    }

    /// Centres the window on line `line_index` in a frame of the given
    /// height: the line comes to the middle of the frame if it is at least
    /// half a frame from the start of the buffer and not in the middle
    /// already. Otherwise it comes to the top; and if it is at the top already,
    /// the window goes to the start of the buffer.
    pub fn center_visual_cursor(&mut self, line_index: usize, height: usize)
        ensures
            final(self).line_offset == offset_centred(old(self).line_offset, line_index, height),
            final(self).viewing_edit_tree == old(self).viewing_edit_tree,
    {
        let half: usize = height / 2;
        if line_index >= half && self.line_offset != line_index - half {
            self.line_offset = line_index - half;
        } else if self.line_offset != line_index {
            self.line_offset = line_index;
        } else {
            self.line_offset = 0;
        }
    }

    /// Does what `message` asks for, for a cursor on line `line_index` in a
    /// frame of the given height, and says whether the window has to be drawn
    /// again. Centring always draws; clearing the selection closes the edit
    /// tree if it is being looked at and only then draws; toggling the edit
    /// tree always draws.
    pub fn update(&mut self, message: Message, line_index: usize, height: usize) -> (render:
        bool)
        ensures
            *final(self) == match message {
                Message::CenterCursorVisually => Viewport {
                    line_offset: offset_centred(
                        old(self).line_offset,
                        line_index,
                        height,
                    ) as usize,
                    ..*old(self)
                },
                Message::ClearSelection => Viewport { viewing_edit_tree: false, ..*old(self) },
                Message::ToggleEditTree => Viewport {
                    viewing_edit_tree: !old(self).viewing_edit_tree,
                    ..*old(self)
                },
            },
            render == match message {
                Message::ClearSelection => old(self).viewing_edit_tree,
                _ => true,
            },
    {
        match message {
            Message::CenterCursorVisually => {
                self.center_visual_cursor(line_index, height);
                true
            },
            Message::ClearSelection => {
                if self.viewing_edit_tree {
                    self.viewing_edit_tree = false;
                    true
                } else {
                    false
                }
            },
            Message::ToggleEditTree => {
                self.viewing_edit_tree = !self.viewing_edit_tree;
                true
            },
        }
    }

    /// What the given arrow key asks for in this window.
    pub fn arrow(&self, arrow: Arrow) -> (step: Step)
        ensures
            step == match arrow {
                Arrow::Up => if self.viewing_edit_tree {
                    Step::Undo
                } else {
                    Step::MoveUp
                },
                Arrow::Down => if self.viewing_edit_tree {
                    Step::Redo
                } else {
                    Step::MoveDown
                },
                Arrow::Left => if self.viewing_edit_tree {
                    Step::PreviousChildRevision
                } else {
                    Step::MoveLeft
                },
                Arrow::Right => if self.viewing_edit_tree {
                    Step::NextChildRevision
                } else {
                    Step::MoveRight
                },
            },
    {
        match arrow {
            Arrow::Up => if self.viewing_edit_tree {
                Step::Undo
            } else {
                Step::MoveUp
            },
            Arrow::Down => if self.viewing_edit_tree {
                Step::Redo
            } else {
                Step::MoveDown
            },
            Arrow::Left => if self.viewing_edit_tree {
                Step::PreviousChildRevision
            } else {
                Step::MoveLeft
            },
            Arrow::Right => if self.viewing_edit_tree {
                Step::NextChildRevision
            } else {
                Step::MoveRight
            },
        }
    }

    /// The number of lines that a page key moves by in a frame of the given
    /// height: the lines of text that the frame shows.
    pub fn page(height: usize) -> (lines: usize)
        ensures
            lines == text_rows(height),
    {
        height.saturating_sub(1)
    }
}

} // verus!
