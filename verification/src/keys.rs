//! How a sequence of key presses is written out for the user.

use vstd::prelude::*;
use vstd::string::StringExecFns;

verus! {

/// The modifier keys held down with a key.
#[derive(Clone, Copy, Debug, PartialEq, Eq, Structural)]
pub struct KeyModifiers {
    pub control: bool,
    pub alt: bool,
}

/// The key that was pressed.
#[derive(Clone, Copy, Debug, PartialEq, Eq, Structural)]
pub enum KeyCode {
    Backspace,
    Enter,
    Left,
    Right,
    Up,
    Down,
    Home,
    End,
    PageUp,
    PageDown,
    Tab,
    BackTab,
    Delete,
    Insert,
    F(u8),
    Char(char),
    Null,
    Esc,
}

/// One key press.
#[derive(Clone, Copy, Debug, PartialEq, Eq, Structural)]
pub struct KeyEvent {
    pub code: KeyCode,
    pub modifiers: KeyModifiers,
}

/// A sequence of key presses, to be written out. A sequence that is the
/// beginning of a longer one is marked as a prefix.
#[derive(Clone, Debug, PartialEq, Eq)]
pub struct KeySequenceSlice<'a> {
    keys: &'a [KeyEvent],
    prefix: bool,
}

/// The decimal digit for `d`, which is below ten.
pub open spec fn digit(d: nat) -> char {
    ('0' as u8 + d) as char
}

/// The decimal numeral of `n`.
pub open spec fn decimal(n: nat) -> Seq<char>
    decreases n,
{
    if n < 10 {
        seq![digit(n)]
    } else {
        decimal(n / 10).push(digit(n % 10))
    }
}

/// How the modifiers of a key press are written: `C-` for control, `A-` for
/// alt, control first.
pub open spec fn modifier_text(modifiers: KeyModifiers) -> Seq<char> {
    if modifiers.control && modifiers.alt {
        "C-A-"@
    } else if modifiers.control {
        "C-"@
    } else if modifiers.alt {
        "A-"@
    } else {
        Seq::<char>::empty()
    }
}

/// How a key is written.
pub open spec fn code_text(code: KeyCode) -> Seq<char> {
    match code {
        KeyCode::Char(c) => if c == ' ' {
            "SPC"@
        } else {
            seq![c]
        },
        KeyCode::Enter => "RET"@,
        KeyCode::Tab => "TAB"@,
        KeyCode::Up => "UP"@,
        KeyCode::Down => "DOWN"@,
        KeyCode::Left => "LEFT"@,
        KeyCode::Right => "RIGHT"@,
        KeyCode::PageUp => "PAGE UP"@,
        KeyCode::PageDown => "PAGE DOWN"@,
        KeyCode::F(number) => seq!['F'] + decimal(number as nat),
        KeyCode::Esc => "ESC"@,
        KeyCode::Backspace => "Backspace"@,
        KeyCode::Home => "Home"@,
        KeyCode::End => "End"@,
        KeyCode::BackTab => "BackTab"@,
        KeyCode::Delete => "Delete"@,
        KeyCode::Insert => "Insert"@,
        KeyCode::Null => "Null"@,
    }
}

/// What follows key `index` of `count` keys: a space between two keys, a
/// hyphen behind the last key of a prefix, nothing behind the last key
/// otherwise.
pub open spec fn separator(index: int, count: int, prefix: bool) -> Seq<char> {
    if index + 1 < count {
        seq![' ']
    } else if prefix {
        seq!['-']
    } else {
        Seq::<char>::empty()
    }
}

/// How the first `n` of the keys are written.
pub open spec fn sequence_text(keys: Seq<KeyEvent>, prefix: bool, n: int) -> Seq<char>
    decreases n,
{
    if n <= 0 {
        Seq::<char>::empty()
    } else {
        sequence_text(keys, prefix, n - 1) + modifier_text(keys[n - 1].modifiers) + code_text(
            keys[n - 1].code,
        ) + separator(n - 1, keys.len() as int, prefix)
    }
}

/// `String::push`: puts the character at the end of the string.
#[verifier::external_body]
fn push_char(text: &mut String, c: char)
    ensures
        final(text)@ == old(text)@.push(c),
{
    text.push(c)
}

/// Writes the decimal numeral of `number` at the end of `text`.
fn push_decimal(text: &mut String, number: u8)
    ensures
        final(text)@ == old(text)@ + decimal(number as nat),
{
    let hundreds: u8 = number / 100;
    let tens: u8 = (number / 10) % 10;
    let ones: u8 = number % 10;
    if hundreds > 0 {
        push_char(text, (48u8 + hundreds) as char);
    }
    if hundreds > 0 || tens > 0 {
        push_char(text, (48u8 + tens) as char);
    }
    push_char(text, (48u8 + ones) as char);
    proof {
        let n = number as nat;
        assert('0' as u8 == 48u8);
        if n < 10 {
            assert(text@ =~= old(text)@ + decimal(n));
        } else if n < 100 {
            assert(decimal(n / 10) =~= seq![digit(n / 10)]);
            assert(text@ =~= old(text)@ + decimal(n));
        } else {
            assert(decimal(n / 10 / 10) =~= seq![digit(n / 10 / 10)]);
            assert(decimal(n / 10) =~= decimal(n / 10 / 10).push(digit((n / 10) % 10)));
            assert(text@ =~= old(text)@ + decimal(n));
        }
    }
}

impl<'a> KeySequenceSlice<'a> {
    /// The sequence of the given key presses.
    pub fn new(keys: &'a [KeyEvent], prefix: bool) -> (sequence: Self)
        ensures
            sequence.keys() == keys@,
            sequence.is_prefix() == prefix,
    {
        Self { keys, prefix }
    }

    /// The key presses of the sequence.
    pub closed spec fn keys(&self) -> Seq<KeyEvent> {
        self.keys@
    }

    /// Whether the sequence is the beginning of a longer one.
    pub closed spec fn is_prefix(&self) -> bool {
        self.prefix
    }

    /// The sequence as it is shown to the user: the keys one after the other
    /// with a space in between, each with its modifiers in front, and a hyphen
    /// at the end if the sequence is a prefix.
    pub fn to_string(&self) -> (text: String)
        ensures
            text@ == sequence_text(self.keys(), self.is_prefix(), self.keys().len() as int),
    {
        let mut text = String::new();
        let count: usize = self.keys.len();
        let mut index: usize = 0;
        while index < count
            invariant
                index <= count,
                count == self.keys@.len(),
                text@ == sequence_text(self.keys@, self.prefix, index as int),
            decreases count - index,
        {
            let ghost before = text@;
            let key = self.keys[index];
            if key.modifiers.control && key.modifiers.alt {
                text.append("C-A-");
            } else if key.modifiers.control {
                text.append("C-");
            } else if key.modifiers.alt {
                text.append("A-");
            }
            assert(text@ =~= before + modifier_text(key.modifiers));
            let ghost with_modifiers = text@;
            match key.code {
                KeyCode::Char(c) => {
                    if c == ' ' {
                        text.append("SPC");
                    } else {
                        push_char(&mut text, c);
                    }
                },
                KeyCode::Enter => text.append("RET"),
                KeyCode::Tab => text.append("TAB"),
                KeyCode::Up => text.append("UP"),
                KeyCode::Down => text.append("DOWN"),
                KeyCode::Left => text.append("LEFT"),
                KeyCode::Right => text.append("RIGHT"),
                KeyCode::PageUp => text.append("PAGE UP"),
                KeyCode::PageDown => text.append("PAGE DOWN"),
                KeyCode::F(number) => {
                    push_char(&mut text, 'F');
                    push_decimal(&mut text, number);
                },
                KeyCode::Esc => text.append("ESC"),
                KeyCode::Backspace => text.append("Backspace"),
                KeyCode::Home => text.append("Home"),
                KeyCode::End => text.append("End"),
                KeyCode::BackTab => text.append("BackTab"),
                KeyCode::Delete => text.append("Delete"),
                KeyCode::Insert => text.append("Insert"),
                KeyCode::Null => text.append("Null"),
            }
            assert(text@ =~= with_modifiers + code_text(key.code));
            let ghost with_code = text@;
            if index < count - 1 {
                push_char(&mut text, ' ');
            } else if self.prefix {
                push_char(&mut text, '-');
            }
            assert(text@ =~= with_code + separator(index as int, count as int, self.prefix));
            index = index + 1;
        }
        text
    }
}

} // verus!
