use lsyshell::connection::{AuthMethod, ConnectionStore, DeferredAction, SshConnection};
use lsyshell::editor::Editor;
use lsyshell::shell::{LsyShell, MAX_LINES};

fn conn(name: &str, host: &str) -> SshConnection {
    SshConnection {
        name: name.to_string(),
        host: host.to_string(),
        port: 22,
        username: "root".to_string(),
        auth_method: AuthMethod::Password(String::new()),
    }
}

fn shell_with(names: &[&str]) -> LsyShell {
    let mut store = ConnectionStore::new();
    for n in names {
        store.insert(n.to_string(), conn(n, "host"));
    }
    LsyShell::from_connections(store)
}

#[test]
fn fresh_shell_state() {
    let s = shell_with(&[]);
    assert!(s.selected_connection.is_none());
    assert!(!s.new_dialog.show);
    assert!(s.force_cursor_to_end);
    assert_eq!(s.pending_input.as_deref(), Some(""));
    assert_eq!(s.history_index, 0);
    assert_eq!(s.temp_connection.as_ref().unwrap().name, "New Connection");
}

#[test]
fn add_connection_saves_dialog_connection() {
    let mut s = shell_with(&[]);
    s.new_dialog.connection = conn("srv", "10.0.0.1");
    s.add_connection();
    assert_eq!(s.connections.get("srv").unwrap().host, "10.0.0.1");
}

#[test]
fn dialog_opens() {
    let mut s = shell_with(&[]);
    s.show_connection_dialog();
    assert!(s.new_dialog.show);
}

#[test]
fn start_editing_loads_connection() {
    let mut s = shell_with(&["a"]);
    s.start_editing("a");
    assert!(s.new_dialog.show);
    assert_eq!(s.new_dialog.connection.name, "a");
    let mut t = shell_with(&["a"]);
    t.start_editing("missing");
    assert!(!t.new_dialog.show);
}

#[test]
fn deletion_is_queued_then_applied() {
    let mut s = shell_with(&["a", "b"]);
    s.mark_for_deletion("a");
    assert_eq!(s.deferred_actions.len(), 1);
    assert!(s.connections.contains_key("a"));
    let applied = s.apply_next_deferred();
    assert!(matches!(applied, Some(DeferredAction::DeleteConnection(ref c)) if c.name == "a"));
    assert!(!s.connections.contains_key("a"));
    assert!(s.connections.contains_key("b"));
    assert!(s.apply_next_deferred().is_none());
}

#[test]
fn closing_dialog_with_save_queues_save() {
    let mut s = shell_with(&[]);
    s.show_connection_dialog();
    s.temp_connection = Some(conn("new", "h"));
    s.close_connection_dialog(true);
    assert!(!s.new_dialog.show);
    assert_eq!(s.temp_connection.as_ref().unwrap().name, "New Connection");
    assert!(matches!(s.apply_next_deferred(), Some(DeferredAction::SaveConnection(_))));
    assert_eq!(s.connections.get("new").unwrap().host, "h");
}

#[test]
fn closing_dialog_without_save_queues_nothing() {
    let mut s = shell_with(&[]);
    s.show_connection_dialog();
    s.close_connection_dialog(false);
    assert!(!s.new_dialog.show);
    assert!(s.deferred_actions.is_empty());
}

#[test]
fn queued_actions_apply_last_first() {
    let mut s = shell_with(&["a"]);
    s.deferred_actions.push(DeferredAction::SaveConnection(conn("x", "1")));
    s.deferred_actions.push(DeferredAction::DeleteConnection(conn("a", "host")));
    assert!(matches!(s.apply_next_deferred(), Some(DeferredAction::DeleteConnection(_))));
    assert!(matches!(s.apply_next_deferred(), Some(DeferredAction::SaveConnection(_))));
    assert!(s.connections.contains_key("x"));
    assert!(!s.connections.contains_key("a"));
}

#[test]
fn output_keeps_last_lines() {
    let mut s = shell_with(&[]);
    let mut text = String::new();
    for i in 0..(MAX_LINES + 5) {
        text.push_str(&format!("line{}\n", i));
    }
    s.terminal_output = text;
    s.handle_terminal_output();
    assert_eq!(s.terminal_output.split('\n').count(), MAX_LINES);
    assert!(s.terminal_output.starts_with("line6\n"));
    assert!(s.terminal_output.ends_with(&format!("line{}\n", MAX_LINES + 4)));
}

#[test]
fn short_output_is_untouched() {
    let mut s = shell_with(&[]);
    s.terminal_output = "a\nb\nc".to_string();
    s.handle_terminal_output();
    assert_eq!(s.terminal_output, "a\nb\nc");
}

#[test]
fn empty_command_shows_prompt() {
    let mut s = shell_with(&[]);
    s.force_cursor_to_end = false;
    s.send_empty_command();
    assert_eq!(s.terminal_output, "$ ");
    assert!(s.force_cursor_to_end);
}

#[test]
fn command_output_is_recorded() {
    let mut s = shell_with(&[]);
    s.complete_command("ls", Some("file"));
    assert_eq!(s.command_history, vec!["ls".to_string()]);
    assert_eq!(s.history_index, 1);
    assert_eq!(s.terminal_output, "file\n$ ");
}

#[test]
fn command_without_session_reports_it() {
    let mut s = shell_with(&[]);
    s.complete_command("ls", None);
    assert!(s.command_history.is_empty());
    assert_eq!(s.terminal_output, "未建立有效连接\n");
}

#[test]
fn connection_outcome_is_reported() {
    let mut s = shell_with(&["a"]);
    s.report_connection("a", None);
    assert_eq!(s.terminal_emulator.get_output(), "成功连接到 a\n");
    s.report_connection("a", Some("refused"));
    assert_eq!(s.terminal_emulator.get_output(), "成功连接到 a\n连接失败: refused\n");
}

#[test]
fn editor_starts_empty() {
    let e = Editor::default();
    assert_eq!(e.count, 0);
    assert_eq!(e.frames, 0);
    assert!(e.strs.is_empty());
}
