//! Keys, and the bytes that a terminal sends for them.
use vstd::prelude::*;

use crate::geometry::Direction;

verus! {

/// What key was pressed. `Other` stands for the keys that no terminal program is told of.
#[derive(Clone, Copy, Debug, PartialEq, Eq, Structural)]
pub enum KeyCode {
    Char(char),
    Up,
    Down,
    Left,
    Right,
    Enter,
    Tab,
    Backspace,
    Delete,
    Esc,
    Home,
    End,
    PageUp,
    PageDown,
    Insert,
    F(u8),
    Other,
}

/// A key, with the modifiers that were held.
#[derive(Clone, Copy, Debug, PartialEq, Eq, Structural)]
pub struct Key {
    pub code: KeyCode,
    pub ctrl: bool,
    pub alt: bool,
    pub shift: bool,
}

impl KeyCode {
    /// The direction of an arrow key.
    pub open spec fn arrow(self) -> Option<Direction> {
        match self {
            KeyCode::Up => Some(Direction::Up),
            KeyCode::Down => Some(Direction::Down),
            KeyCode::Left => Some(Direction::Left),
            KeyCode::Right => Some(Direction::Right),
            _ => None,
        }
    }

    /// `arrow`, computed.
    pub fn direction(self) -> (direction: Option<Direction>)
        ensures
            direction == self.arrow(),
    {
        match self {
            KeyCode::Up => Some(Direction::Up),
            KeyCode::Down => Some(Direction::Down),
            KeyCode::Left => Some(Direction::Left),
            KeyCode::Right => Some(Direction::Right),
            _ => None,
        }
    }
}

/// The last byte of the sequence of an arrow key.
pub open spec fn arrow_letter(direction: Direction) -> u8 {
    match direction {
        Direction::Up => 0x41,
        Direction::Down => 0x42,
        Direction::Right => 0x43,
        Direction::Left => 0x44,
    }
}

impl Key {
    /// The number of the modifiers in the sequence of an arrow key; 1 is none.
    pub open spec fn modifier(self) -> int {
        1 + (if self.shift {
            2int
        } else {
            0
        }) + (if self.alt {
            2int
        } else {
            0
        }) + (if self.ctrl {
            4int
        } else {
            0
        })
    }

    /// The bytes of a key that is no arrow, without the prefix for Alt.
    pub open spec fn plain(self) -> Seq<u8> {
        match self.code {
            KeyCode::Char(c) => if self.ctrl {
                seq![(c as u32 % 32) as u8]
            } else {
                vstd::utf8::encode_utf8(seq![c])
            },
            KeyCode::Enter => seq![0x0du8],
            KeyCode::Tab => seq![0x09u8],
            KeyCode::Backspace | KeyCode::Delete => seq![0x7fu8],
            KeyCode::Esc => seq![0x1bu8],
            KeyCode::Home => seq![0x1bu8, 0x5b, 0x48],
            KeyCode::End => seq![0x1bu8, 0x5b, 0x46],
            KeyCode::PageUp => seq![0x1bu8, 0x5b, 0x35, 0x7e],
            KeyCode::PageDown => seq![0x1bu8, 0x5b, 0x36, 0x7e],
            KeyCode::Insert => seq![0x1bu8, 0x5b, 0x32, 0x7e],
            KeyCode::F(n) => if 1 <= n <= 4 {
                seq![0x1bu8, 0x4f, (0x4f + n) as u8]
            } else if 5 <= n <= 12 {
                seq![0x1bu8, 0x5b, (0x30 + (10 + n) / 10) as u8, (0x30 + (10 + n) % 10) as u8, 0x7e]
            } else {
                Seq::empty()
            },
            _ => Seq::empty(),
        }
    }

    /// The bytes of the key.
    pub open spec fn bytes(self) -> Seq<u8> {
        match self.code.arrow() {
            Some(direction) => if self.modifier() == 1 {
                seq![0x1bu8, 0x5b, arrow_letter(direction)]
            } else {
                seq![
                    0x1bu8,
                    0x5b,
                    0x31,
                    0x3b,
                    (0x30 + self.modifier()) as u8,
                    arrow_letter(direction),
                ]
            },
            None => if self.alt {
                seq![0x1bu8] + self.plain()
            } else {
                self.plain()
            },
        }
    }

    /// The bytes that a terminal sends for an arrow key.
    fn encode_arrow(self, direction: Direction) -> (bytes: Vec<u8>)
        requires
            self.code.arrow() == Some(direction),
        ensures
            bytes@ == self.bytes(),
    {
        let letter: u8 = match direction {
            Direction::Up => 0x41,
            Direction::Down => 0x42,
            Direction::Right => 0x43,
            Direction::Left => 0x44,
        };
        let mut modifier: u8 = 1;
        if self.shift {
            modifier = modifier + 2;
        }
        if self.alt {
            modifier = modifier + 2;
        }
        if self.ctrl {
            modifier = modifier + 4;
        }
        if modifier == 1 {
            vec![0x1b, 0x5b, letter]
        } else {
            vec![0x1b, 0x5b, 0x31, 0x3b, 0x30 + modifier, letter]
        }
    }

    /// The bytes of a key that is no arrow, without the prefix for Alt.
    fn encode_plain(self) -> (bytes: Vec<u8>)
        ensures
            bytes@ == self.plain(),
    {
        match self.code {
            KeyCode::Char(c) => {
                if self.ctrl {
                    vec![(c as u32 % 32) as u8]
                } else {
                    let mut text = String::new();
                    text.push(c);
                    assert(text@ =~= seq![c]);
                    let mut bytes: Vec<u8> = Vec::new();
                    bytes.extend_from_slice(text.as_str().as_bytes());
                    assert(bytes@ =~= vstd::utf8::encode_utf8(seq![c]));
                    bytes
                }
            },
            KeyCode::Enter => vec![0x0d],
            KeyCode::Tab => vec![0x09],
            KeyCode::Backspace | KeyCode::Delete => vec![0x7f],
            KeyCode::Esc => vec![0x1b],
            KeyCode::Home => vec![0x1b, 0x5b, 0x48],
            KeyCode::End => vec![0x1b, 0x5b, 0x46],
            KeyCode::PageUp => vec![0x1b, 0x5b, 0x35, 0x7e],
            KeyCode::PageDown => vec![0x1b, 0x5b, 0x36, 0x7e],
            KeyCode::Insert => vec![0x1b, 0x5b, 0x32, 0x7e],
            KeyCode::F(n) => {
                if 1 <= n && n <= 4 {
                    vec![0x1b, 0x4f, 0x4f + n]
                } else if 5 <= n && n <= 12 {
                    vec![0x1b, 0x5b, 0x30 + (10 + n) / 10, 0x30 + (10 + n) % 10, 0x7e]
                } else {
                    Vec::new()
                }
            },
            _ => Vec::new(),
        }
    }

    /// The bytes that a terminal sends for the key.
    pub fn encode(self) -> (bytes: Vec<u8>)
        ensures
            bytes@ == self.bytes(),
    {
        match self.code.direction() {
            Some(direction) => self.encode_arrow(direction),
            None => {
                let mut bytes: Vec<u8> = Vec::new();
                if self.alt {
                    bytes.push(0x1b);
                }
                let mut rest: Vec<u8> = self.encode_plain();
                bytes.append(&mut rest);
                assert(bytes@ =~= self.bytes());
                bytes
            },
        }
    }
}

/// Ctrl with a letter sends the place of the letter in the alphabet, whether it is upper or lower
/// case.
pub proof fn law_control_letters(key: Key, upper: Key, n: u8)
    requires
        1 <= n <= 26,
        key.code == KeyCode::Char((0x60 + n) as char),
        upper.code == KeyCode::Char((0x40 + n) as char),
        key.ctrl && upper.ctrl,
        !key.alt && !upper.alt,
    ensures
        key.bytes() == seq![n],
        upper.bytes() == seq![n],
{
}

/// Alt puts an escape in front of what a key sends without it, but for the arrow keys.
pub proof fn law_alt_is_an_escape(key: Key)
    requires
        key.alt,
        key.code.arrow() is None,
    ensures
        key.bytes() == seq![0x1bu8] + (Key { alt: false, ..key }).bytes(),
{
}

/// Text is sent as it is written: a character without modifiers as its UTF-8 encoding.
pub proof fn law_text_is_sent_as_utf8(key: Key, c: char)
    requires
        key.code == KeyCode::Char(c),
        !key.ctrl,
        !key.alt,
    ensures
        key.bytes() == vstd::utf8::encode_utf8(seq![c]),
{
}

/// An arrow without modifiers is sent as an escape, a bracket and its letter: A up, B down, C
/// right, D left. With modifiers a one, a semicolon and a digit come before the letter; the digit
/// is one, and two more for Shift, two more for Alt and four more for Ctrl.
pub proof fn law_arrows_name_their_modifiers(key: Key)
    requires
        key.code is Up || key.code is Down || key.code is Left || key.code is Right,
    ensures
        ({
            let letter: u8 = if key.code is Up {
                0x41
            } else if key.code is Down {
                0x42
            } else if key.code is Right {
                0x43
            } else {
                0x44
            };
            let bytes = key.bytes();
            &&& bytes[0] == 0x1b && bytes[1] == 0x5b && bytes.last() == letter
            &&& !key.shift && !key.alt && !key.ctrl ==> bytes.len() == 3
            &&& key.shift || key.alt || key.ctrl ==> {
                &&& bytes.len() == 6
                &&& bytes[2] == 0x31
                &&& bytes[3] == 0x3b
                &&& bytes[4] - 0x31 == (if key.shift {
                    2int
                } else {
                    0
                }) + (if key.alt {
                    2int
                } else {
                    0
                }) + (if key.ctrl {
                    4int
                } else {
                    0
                })
            }
        }),
{
}

/// The keys with a name of their own send what a terminal sends for them, whatever Shift and Ctrl
/// do: Enter a carriage return, Tab a tab, Backspace and Delete a delete, Esc an escape, and the
/// others an escape, a bracket and a letter or a number.
pub proof fn law_named_keys_send_their_sequences(key: Key)
    requires
        !key.alt,
    ensures
        key.code is Enter ==> key.bytes() == seq![0x0du8],
        key.code is Tab ==> key.bytes() == seq![0x09u8],
        key.code is Backspace || key.code is Delete ==> key.bytes() == seq![0x7fu8],
        key.code is Esc ==> key.bytes() == seq![0x1bu8],
        key.code is Home ==> key.bytes() == seq![0x1bu8, 0x5b, 0x48],
        key.code is End ==> key.bytes() == seq![0x1bu8, 0x5b, 0x46],
        key.code is PageUp ==> key.bytes() == seq![0x1bu8, 0x5b, 0x35, 0x7e],
        key.code is PageDown ==> key.bytes() == seq![0x1bu8, 0x5b, 0x36, 0x7e],
        key.code is Insert ==> key.bytes() == seq![0x1bu8, 0x5b, 0x32, 0x7e],
        key.code is Other ==> key.bytes().len() == 0,
{
}

/// The first four function keys send an escape, an O and a letter from P on; the fifth to the
/// twelfth an escape, a bracket, the two digits of their number and ten, and a tilde; there are no
/// others.
pub proof fn law_function_keys_count_up(key: Key, n: u8)
    requires
        key.code == KeyCode::F(n),
        !key.alt,
    ensures
        ({
            let bytes = key.bytes();
            &&& 1 <= n <= 4 ==> bytes.len() == 3 && bytes[0] == 0x1b && bytes[1] == 0x4f && bytes[2]
                == 0x50 + (n - 1)
            &&& 5 <= n <= 12 ==> {
                &&& bytes.len() == 5
                &&& bytes[0] == 0x1b && bytes[1] == 0x5b && bytes[4] == 0x7e
                &&& 0x30 <= bytes[2] <= 0x39
                &&& 0x30 <= bytes[3] <= 0x39
                &&& 10 * (bytes[2] - 0x30) + (bytes[3] - 0x30) == n + 10
            }
            &&& n == 0 || n > 12 ==> bytes.len() == 0
        }),
{
}

/// Ctrl with any character sends one byte: the last five bits of the character.
pub proof fn law_control_characters_are_one_byte(key: Key, c: char)
    requires
        key.code == KeyCode::Char(c),
        key.ctrl,
        !key.alt,
    ensures
        key.bytes().len() == 1,
        key.bytes()[0] < 32,
        (c as u32 - key.bytes()[0]) % 32 == 0,
{
}

} // verus!
