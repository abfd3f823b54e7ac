//! The bytes a terminal sends to the remote shell for typed text and special keys.
use vstd::prelude::*;

verus! {

/// The keys that have a byte encoding of their own; `Other` stands for the rest.
#[derive(PartialEq, Eq, Structural, Clone, Copy, Debug)]
pub enum TerminalKey {
    Enter,
    Backspace,
    ArrowUp,
    ArrowDown,
    ArrowLeft,
    ArrowRight,
    Tab,
    Escape,
    Other,
}

/// The bytes a special key sends, if it sends any.
pub open spec fn key_sequence(key: TerminalKey) -> Option<Seq<u8>> {
    match key {
        TerminalKey::Enter => Some(seq![0x0au8]),
        TerminalKey::Backspace => Some(seq![0x7fu8]),
        TerminalKey::ArrowUp => Some(seq![0x1bu8, 0x5bu8, 0x41u8]),
        TerminalKey::ArrowDown => Some(seq![0x1bu8, 0x5bu8, 0x42u8]),
        TerminalKey::ArrowLeft => Some(seq![0x1bu8, 0x5bu8, 0x44u8]),
        TerminalKey::ArrowRight => Some(seq![0x1bu8, 0x5bu8, 0x43u8]),
        TerminalKey::Tab => Some(seq![0x09u8]),
        TerminalKey::Escape => Some(seq![0x1bu8]),
        TerminalKey::Other => None,
    }
}

/// The byte a typed character sends: its code truncated to a byte, or with
/// Ctrl held, the control code of a letter (`a` is 1, ..., `z` is 26) or of
/// `@ [ \ ] ^ _` (0, 0x1b to 0x1f).
pub open spec fn char_byte(c: char, ctrl: bool) -> u8 {
    if !ctrl {
        c as u8
    } else if 'a' <= c <= 'z' {
        ((c as u32) - 0x61 + 1) as u8
    } else if c == '@' {
        0
    } else if c == '[' {
        0x1b
    } else if c == '\\' {
        0x1c
    } else if c == ']' {
        0x1d
    } else if c == '^' {
        0x1e
    } else if c == '_' {
        0x1f
    } else {
        c as u8
    }
}

/// The characters that Ctrl turns into a control code: the lower-case letters
/// and `@ [ \\ ] ^ _`.
pub open spec fn is_control_target(c: char) -> bool {
    ('a' <= c && c <= 'z') || c == '@' || c == '[' || c == '\\' || c == ']' || c == '^' || c == '_'
}

/// Law: without Ctrl, every typed character is sent as its own code
/// truncated to a byte.
pub proof fn law_plain_char_is_its_code(c: char)
    ensures
        char_byte(c, false) == c as u8,
{
}

/// Law: with Ctrl, a letter or one of `@ [ \\ ] ^ _` is sent as its code
/// modulo 32 (`a` is 1, `z` is 26, `@` is 0, `_` is 31), and every other
/// character as its own code truncated to a byte.
pub proof fn law_ctrl_char_code(c: char)
    ensures
        is_control_target(c) ==> char_byte(c, true) as u32 == (c as u32) % 32,
        is_control_target(c) ==> char_byte(c, true) < 32,
        !is_control_target(c) ==> char_byte(c, true) == c as u8,
{
}

/// The byte sent for a typed character.
pub fn encode_char(c: char, ctrl: bool) -> (b: u8)
    ensures
        b == char_byte(c, ctrl),
        !ctrl ==> b == c as u8,
        ctrl && is_control_target(c) ==> b as u32 == (c as u32) % 32,
        ctrl && !is_control_target(c) ==> b == c as u8,
{
    if !ctrl {
        return c as u8;
    }
    if 'a' <= c && c <= 'z' {
        ((c as u32) - 0x61 + 1) as u8
    } else if c == '@' {
        0
    } else if c == '[' {
        0x1b
    } else if c == '\\' {
        0x1c
    } else if c == ']' {
        0x1d
    } else if c == '^' {
        0x1e
    } else if c == '_' {
        0x1f
    } else {
        c as u8
    }
}

/// The bytes sent for typed text, one per character.
pub fn encode_text(text: &str, ctrl: bool) -> (v: Vec<u8>)
    ensures
        v@.len() == text@.len(),
        forall|i: int| 0 <= i < text@.len() ==> #[trigger] v@[i] == char_byte(text@[i], ctrl),
        !ctrl ==> v@ == text@.map_values(|c: char| c as u8),
{
    let mut v: Vec<u8> = Vec::new();
    for c in it: text.chars()
        invariant
            it.seq() == text@,
            v@.len() == it.index(),
            it.index() <= text@.len(),
            forall|i: int| 0 <= i < v@.len() ==> #[trigger] v@[i] == char_byte(text@[i], ctrl),
    {
        v.push(encode_char(c, ctrl));
    }
    proof {
        if !ctrl {
            assert forall|i: int| 0 <= i < text@.len() implies #[trigger] v@[i] == text@[i] as u8 by {
                law_plain_char_is_its_code(text@[i]);
            }
            assert(v@ =~= text@.map_values(|c: char| c as u8));
        }
    }
    v
}

/// The bytes a special key sends, or `None` for a key that sends nothing.
pub fn encode_key(key: TerminalKey) -> (r: Option<Vec<u8>>)
    ensures
        r is Some <==> key_sequence(key) is Some,
        r matches Some(v) ==> key_sequence(key) == Some(v@),
{
    let r = match key {
        TerminalKey::Enter => Some(vec![0x0au8]),
        TerminalKey::Backspace => Some(vec![0x7fu8]),
        TerminalKey::ArrowUp => Some(vec![0x1bu8, 0x5bu8, 0x41u8]),
        TerminalKey::ArrowDown => Some(vec![0x1bu8, 0x5bu8, 0x42u8]),
        TerminalKey::ArrowLeft => Some(vec![0x1bu8, 0x5bu8, 0x44u8]),
        TerminalKey::ArrowRight => Some(vec![0x1bu8, 0x5bu8, 0x43u8]),
        TerminalKey::Tab => Some(vec![0x09u8]),
        TerminalKey::Escape => Some(vec![0x1bu8]),
        TerminalKey::Other => None,
    };
    proof {
        if r is Some {
            assert(key_sequence(key) == Some(r->0@));
        }
    }
    r
}

} // verus!
