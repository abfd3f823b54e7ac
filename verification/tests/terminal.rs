use lsyshell::terminal::{AnsiProcessor, TerminalEmulator, OUTPUT_BYTE_LIMIT};

fn feed(p: &mut AnsiProcessor, bytes: &[u8]) -> String {
    let mut out = String::new();
    for &b in bytes {
        if let Some(t) = p.process(b) {
            out.push_str(&t);
        }
    }
    out
}

#[test]
fn plain_byte_passes_as_character() {
    let mut p = AnsiProcessor::new();
    assert_eq!(p.process(b'a'), Some("a".to_string()));
    assert_eq!(p.process(b'Z'), Some("Z".to_string()));
}

#[test]
fn sequence_end_letters_are_always_dropped() {
    let mut p = AnsiProcessor::new();
    assert_eq!(p.process(b'm'), None);
    assert_eq!(p.process(b'h'), None);
    assert_eq!(p.process(b'l'), None);
    assert_eq!(feed(&mut p, b"hello"), "eo");
}

#[test]
fn escape_sequence_is_filtered_out() {
    let mut p = AnsiProcessor::new();
    assert_eq!(feed(&mut p, b"\x1b[31mred\x1b[0m"), "red");
    assert_eq!(p.flush(), None);
}

#[test]
fn byte_is_read_as_latin1_character() {
    let mut p = AnsiProcessor::new();
    assert_eq!(p.process(0xE9), Some("\u{e9}".to_string()));
}

#[test]
fn open_sequence_is_held_until_flush() {
    let mut p = AnsiProcessor::new();
    assert_eq!(feed(&mut p, b"\x1b[3"), "");
    assert_eq!(p.flush(), Some("\x1b[3".to_string()));
    assert_eq!(p.flush(), None);
}

#[test]
fn flush_replaces_invalid_utf8() {
    let mut p = AnsiProcessor::new();
    assert_eq!(p.process(0x1b), None);
    assert_eq!(p.process(0xff), None);
    assert_eq!(p.flush(), Some("\x1b\u{fffd}".to_string()));
}

#[test]
fn write_appends_filtered_text() {
    let mut t = TerminalEmulator::new();
    t.write(b"ab\x1b[1mc");
    assert_eq!(t.get_output(), "abc");
    t.write(b"\x1b[2");
    assert_eq!(t.get_content(), "abc\x1b[2");
    assert_eq!(t.cursor_position, 0);
    assert!(!t.alternate_screen);
}

#[test]
fn write_keeps_last_bytes() {
    let mut t = TerminalEmulator::new();
    let mut data = vec![b'x'];
    data.extend(std::iter::repeat(b'a').take(OUTPUT_BYTE_LIMIT));
    t.write(&data);
    assert_eq!(t.terminal_output.len(), OUTPUT_BYTE_LIMIT);
    assert!(t.terminal_output.chars().all(|c| c == 'a'));
}

#[test]
fn write_cut_between_two_byte_characters() {
    let mut t = TerminalEmulator::new();
    let data = vec![0xE9u8; 5001];
    assert!(t.try_write(&data));
    assert_eq!(t.terminal_output.len(), OUTPUT_BYTE_LIMIT);
    assert_eq!(t.terminal_output.chars().count(), 5000);
}

#[test]
fn try_write_refuses_cut_inside_a_character() {
    let mut t = TerminalEmulator::new();
    t.write(b"start");
    let mut data = vec![b'a'];
    data.extend(std::iter::repeat(0xE9u8).take(5000));
    data.push(b'b');
    assert!(!t.try_write(&data));
    assert_eq!(t.get_output(), "start");
}

#[test]
fn alternate_screen_starts_blank() {
    let mut t = TerminalEmulator::new();
    t.write(b"text");
    t.enter_alternate_screen();
    assert!(t.alternate_screen);
    assert_eq!(t.get_output(), "");
    t.write(b"next");
    t.leave_alternate_screen();
    assert!(!t.alternate_screen);
    assert_eq!(t.get_output(), "next");
}

#[test]
fn read_is_empty() {
    let mut t = TerminalEmulator::new();
    assert!(t.read().is_empty());
}

#[test]
fn content_can_be_edited_in_place() {
    let mut t = TerminalEmulator::new();
    t.write(b"ab");
    t.get_content_mut().push('c');
    assert_eq!(t.get_output(), "abc");
}

#[test]
fn default_terminal_is_empty() {
    let t = TerminalEmulator::default();
    assert_eq!(t.get_output(), "");
    assert_eq!(t.cursor_position, 0);
}

#[test]
fn two_writes_equal_one_joined_write() {
    let mut split = TerminalEmulator::new();
    split.write(b"ab\x1b[1m");
    split.write(b"cd");
    let mut joined = TerminalEmulator::new();
    joined.write(b"ab\x1b[1mcd");
    assert_eq!(split.get_output(), joined.get_output());
    assert_eq!(joined.get_output(), "abcd");
}

#[test]
fn pending_sequence_never_holds_end_letters() {
    let mut p = AnsiProcessor::new();
    assert_eq!(feed(&mut p, b"\x1b[1;2"), "");
    assert_eq!(p.process(b'm'), None);
    assert_eq!(p.flush(), None);
}
