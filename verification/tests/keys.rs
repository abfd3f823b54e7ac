use lsyshell::keys::{encode_char, encode_key, encode_text, TerminalKey};

#[test]
fn ctrl_letters_give_control_codes() {
    assert_eq!(encode_char('a', true), 1);
    assert_eq!(encode_char('c', true), 3);
    assert_eq!(encode_char('z', true), 26);
}

#[test]
fn ctrl_punctuation_gives_control_codes() {
    assert_eq!(encode_char('@', true), 0);
    assert_eq!(encode_char('[', true), 0x1b);
    assert_eq!(encode_char('\\', true), 0x1c);
    assert_eq!(encode_char(']', true), 0x1d);
    assert_eq!(encode_char('^', true), 0x1e);
    assert_eq!(encode_char('_', true), 0x1f);
}

#[test]
fn other_characters_are_truncated_codes() {
    assert_eq!(encode_char('A', true), b'A');
    assert_eq!(encode_char('a', false), b'a');
    assert_eq!(encode_char('\u{e9}', false), 0xE9);
    assert_eq!(encode_char('\u{4e2d}', false), 0x2d);
}

#[test]
fn text_is_one_byte_per_character() {
    assert_eq!(encode_text("ls -l", false), b"ls -l".to_vec());
    assert_eq!(encode_text("cd", true), vec![3, 4]);
    assert_eq!(encode_text("", true), Vec::<u8>::new());
}

#[test]
fn special_keys_send_their_sequences() {
    assert_eq!(encode_key(TerminalKey::Enter), Some(b"\n".to_vec()));
    assert_eq!(encode_key(TerminalKey::Backspace), Some(vec![0x7f]));
    assert_eq!(encode_key(TerminalKey::ArrowUp), Some(b"\x1b[A".to_vec()));
    assert_eq!(encode_key(TerminalKey::ArrowDown), Some(b"\x1b[B".to_vec()));
    assert_eq!(encode_key(TerminalKey::ArrowLeft), Some(b"\x1b[D".to_vec()));
    assert_eq!(encode_key(TerminalKey::ArrowRight), Some(b"\x1b[C".to_vec()));
    assert_eq!(encode_key(TerminalKey::Tab), Some(b"\t".to_vec()));
    assert_eq!(encode_key(TerminalKey::Escape), Some(vec![0x1b]));
    assert_eq!(encode_key(TerminalKey::Other), None);
}
