//! The state of the shell window apart from its widgets and its network
//! session: saved connections, the connection dialog, command history and the
//! text shown in the terminal panes.
use vstd::prelude::*;
use crate::connection::{
    is_default_connection, ConnectionStore, DeferredAction, NewConnectionDialog, SshConnection,
};
use crate::terminal::TerminalEmulator;
use crate::text::{
    lemma_tail_is_skip, lemma_tail_within_exact, lemma_tail_within_idempotent,
    lemma_tail_within_props, lemma_weight_skip, newline_count, newline_weight, string_from,
    tail_within, to_chars, weight_sum,
};

verus! {

/// Most lines the command output pane keeps.
pub const MAX_LINES: usize = 10000;

/// The last `MAX_LINES` lines of `s` (lines are separated by line feeds).
pub open spec fn keep_last_lines(s: Seq<char>) -> Seq<char> {
    tail_within(s, newline_weight(), (MAX_LINES - 1) as nat)
}

/// The saved connections after `action`.
pub open spec fn apply_action(
    m: Map<Seq<char>, SshConnection>,
    action: DeferredAction,
) -> Map<Seq<char>, SshConnection> {
    match action {
        DeferredAction::SaveConnection(c) => m.insert(c.name@, c),
        DeferredAction::DeleteConnection(c) => m.remove(c.name@),
    }
}

impl Clone for DeferredAction {
    fn clone(&self) -> (r: Self)
        ensures
            r == *self,
    {
        match self {
            DeferredAction::SaveConnection(c) => DeferredAction::SaveConnection(c.clone()),
            DeferredAction::DeleteConnection(c) => DeferredAction::DeleteConnection(c.clone()),
        }
    }
}

/// The shell window's state.
pub struct LsyShell {
    pub connections: ConnectionStore,
    pub selected_connection: Option<String>,
    pub new_dialog: NewConnectionDialog,
    pub terminal_output: String,
    pub force_cursor_to_end: bool,
    pub pending_input: Option<String>,
    pub command_history: Vec<String>,
    pub history_index: usize,
    pub pending_commands: Vec<String>,
    pub deferred_actions: Vec<DeferredAction>,
    pub temp_connection: Option<SshConnection>,
    pub terminal_emulator: TerminalEmulator,
}

/// First position of `chars` from which the rest holds at most `bound` line feeds.
fn tail_start_by_lines(chars: &Vec<char>, bound: usize) -> (j: usize)
    ensures
        j <= chars@.len(),
        weight_sum(chars@.skip(j as int), newline_weight()) <= bound,
        j == 0 || weight_sum(chars@.skip(j - 1), newline_weight()) > bound,
{
    let mut j = chars.len();
    let mut count: usize = 0;
    assert(chars@.skip(j as int) =~= Seq::<char>::empty());
    loop
        invariant
            j <= chars@.len(),
            count == weight_sum(chars@.skip(j as int), newline_weight()),
            count <= bound,
        ensures
            j <= chars@.len(),
            count == weight_sum(chars@.skip(j as int), newline_weight()),
            j == 0 || weight_sum(chars@.skip(j - 1), newline_weight()) > bound,
        decreases j,
    {
        if j == 0 {
            break;
        }
        proof {
            lemma_weight_skip(chars@, newline_weight(), j - 1);
        }
        if chars[j - 1] == '\n' {
            if count == bound {
                break;
            }
            count = count + 1;
        }
        j = j - 1;
    }
    j
}

impl LsyShell {
    /// A shell window over `connections`, with the dialog closed, nothing
    /// selected, no history and empty panes.
    pub fn from_connections(connections: ConnectionStore) -> (s: Self)
        ensures
            s.connections == connections,
            s.selected_connection is None,
            !s.new_dialog.show,
            is_default_connection(s.new_dialog.connection),
            s.terminal_output@ == Seq::<char>::empty(),
            s.force_cursor_to_end,
            s.pending_input matches Some(p) && p@ == Seq::<char>::empty(),
            s.command_history@ == Seq::<String>::empty(),
            s.history_index == 0,
            s.pending_commands@ == Seq::<String>::empty(),
            s.deferred_actions@ == Seq::<DeferredAction>::empty(),
            s.temp_connection matches Some(c) && is_default_connection(c),
            s.terminal_emulator.terminal_output@ == Seq::<char>::empty(),
            s.terminal_emulator.cursor_position == 0,
            !s.terminal_emulator.alternate_screen,
            s.terminal_emulator.ansi_processor@ == Seq::<u8>::empty(),
    {
        LsyShell {
            connections,
            selected_connection: None,
            new_dialog: NewConnectionDialog::default(),
            terminal_output: String::new(),
            force_cursor_to_end: true,
            pending_input: Some(String::new()),
            command_history: Vec::new(),
            history_index: 0,
            pending_commands: Vec::new(),
            deferred_actions: Vec::new(),
            temp_connection: Some(SshConnection::default()),
            terminal_emulator: TerminalEmulator::new(),
        }
    }

    /// Saves the dialog's connection under its name.
    pub fn add_connection(&mut self)
        ensures
            final(self).connections@ == old(self).connections@.insert(
                old(self).new_dialog.connection.name@,
                old(self).new_dialog.connection,
            ),
            *final(self) == (LsyShell { connections: final(self).connections, ..*old(self) }),
    {
        let key = self.new_dialog.connection.name.clone();
        let conn = self.new_dialog.connection.clone();
        self.connections.insert(key, conn);
    }

    /// Opens the connection dialog.
    pub fn show_connection_dialog(&mut self)
        ensures
            final(self).new_dialog.show,
            *final(self) == (LsyShell {
                new_dialog: NewConnectionDialog {
                    show: true,
                    connection: old(self).new_dialog.connection,
                },
                ..*old(self)
            }),
    {
        self.new_dialog.show = true;
    }

    /// Loads the connection saved under `name` into the dialog and opens it;
    /// nothing happens for an unknown name.
    pub fn start_editing(&mut self, name: &str)
        ensures
            old(self).connections@.dom().contains(name@) ==> *final(self) == (LsyShell {
                new_dialog: NewConnectionDialog {
                    show: true,
                    connection: old(self).connections@[name@],
                },
                ..*old(self)
            }),
            !old(self).connections@.dom().contains(name@) ==> *final(self) == *old(self),
    {
        match self.connections.get(name) {
            Some(conn) => {
                let copy = conn.clone();
                self.new_dialog.connection = copy;
                self.new_dialog.show = true;
            },
            None => {},
        }
    }

    /// Queues the deletion of the connection saved under `name`.
    pub fn mark_for_deletion(&mut self, name: &str)
        requires
            old(self).connections@.dom().contains(name@),
        ensures
            final(self).deferred_actions@ == old(self).deferred_actions@.push(
                DeferredAction::DeleteConnection(old(self).connections@[name@]),
            ),
            *final(self) == (LsyShell {
                deferred_actions: final(self).deferred_actions,
                ..*old(self)
            }),
    {
        let conn = match self.connections.get(name) {
            Some(c) => c.clone(),
            None => {
                proof {
                    assert(false);
                }
                SshConnection::default()
            },
        };
        self.deferred_actions.push(DeferredAction::DeleteConnection(conn));
    }

    /// Keeps the last `MAX_LINES` lines of the command output.
    pub fn handle_terminal_output(&mut self)
        ensures
            final(self).terminal_output@ == keep_last_lines(old(self).terminal_output@),
            *final(self) == (LsyShell { terminal_output: final(self).terminal_output, ..*old(self) }),
    {
        let chars = to_chars(self.terminal_output.as_str());
        let start = tail_start_by_lines(&chars, MAX_LINES - 1);
        proof {
            lemma_tail_is_skip(chars@, newline_weight(), (MAX_LINES - 1) as nat, start as int);
        }
        if start > 0 {
            self.terminal_output = string_from(&chars, start);
        } else {
            assert(chars@.skip(0) =~= chars@);
        }
    }

    /// Shows a new prompt, asks for the cursor to go to the end, and keeps the
    /// last `MAX_LINES` lines.
    pub fn send_empty_command(&mut self)
        ensures
            final(self).terminal_output@ == keep_last_lines(old(self).terminal_output@ + "$ "@),
            *final(self) == (LsyShell {
                terminal_output: final(self).terminal_output,
                force_cursor_to_end: true,
                ..*old(self)
            }),
    {
        self.terminal_output.append("$ ");
        self.force_cursor_to_end = true;
        self.handle_terminal_output();
    }

    /// Records what running `command` gave: with a session (`output` is
    /// `Some`), the command joins the history, the history position moves past
    /// it, and the output, a line feed and a new prompt are shown; without one,
    /// a notice that no connection is open is shown. Either way the cursor goes
    /// to the end and the last `MAX_LINES` lines are kept.
    pub fn complete_command(&mut self, command: &str, output: Option<&str>)
        requires
            output is Some ==> old(self).command_history@.len() < usize::MAX,
        ensures
            output matches Some(out) ==> {
                &&& final(self).command_history@.len() == old(self).command_history@.len() + 1
                &&& final(self).command_history@.drop_last() == old(self).command_history@
                &&& final(self).command_history@.last()@ == command@
                &&& final(self).history_index == final(self).command_history@.len()
                &&& final(self).terminal_output@ == keep_last_lines(
                    old(self).terminal_output@ + out@ + "\n"@ + "$ "@,
                )
            },
            output is None ==> {
                &&& final(self).command_history == old(self).command_history
                &&& final(self).history_index == old(self).history_index
                &&& final(self).terminal_output@ == keep_last_lines(
                    old(self).terminal_output@ + "未建立有效连接\n"@,
                )
            },
            *final(self) == (LsyShell {
                terminal_output: final(self).terminal_output,
                command_history: final(self).command_history,
                history_index: final(self).history_index,
                force_cursor_to_end: true,
                ..*old(self)
            }),
    {
        match output {
            Some(out) => {
                self.command_history.push(command.to_owned());
                self.history_index = self.command_history.len();
                self.terminal_output.append(out);
                self.terminal_output.append("\n");
                self.terminal_output.append("$ ");
            },
            None => {
                self.terminal_output.append("未建立有效连接\n");
            },
        }
        self.force_cursor_to_end = true;
        self.handle_terminal_output();
    }

    /// Reports in the terminal pane whether connecting to `name` worked;
    /// `error` holds the reason it did not.
    pub fn report_connection(&mut self, name: &str, error: Option<&str>)
        ensures
            error is None ==> final(self).terminal_emulator.terminal_output@
                == old(self).terminal_emulator.terminal_output@ + "成功连接到 "@ + name@ + "\n"@,
            error matches Some(e) ==> final(self).terminal_emulator.terminal_output@
                == old(self).terminal_emulator.terminal_output@ + "连接失败: "@ + e@ + "\n"@,
            final(self).terminal_emulator.cursor_position
                == old(self).terminal_emulator.cursor_position,
            final(self).terminal_emulator.alternate_screen
                == old(self).terminal_emulator.alternate_screen,
            final(self).terminal_emulator.ansi_processor == old(self).terminal_emulator.ansi_processor,
            *final(self) == (LsyShell { terminal_emulator: final(self).terminal_emulator, ..*old(self) }),
    {
        match error {
            None => {
                self.terminal_emulator.terminal_output.append("成功连接到 ");
                self.terminal_emulator.terminal_output.append(name);
                self.terminal_emulator.terminal_output.append("\n");
            },
            Some(e) => {
                self.terminal_emulator.terminal_output.append("连接失败: ");
                self.terminal_emulator.terminal_output.append(e);
                self.terminal_emulator.terminal_output.append("\n");
            },
        }
    }

    /// Closes the connection dialog; with `save`, queues saving the connection
    /// being edited. The edited connection starts over from the defaults.
    /// Nothing happens when no connection is being edited.
    pub fn close_connection_dialog(&mut self, save: bool)
        ensures
            old(self).temp_connection matches Some(t) ==> {
                &&& !final(self).new_dialog.show
                &&& final(self).new_dialog.connection == old(self).new_dialog.connection
                &&& final(self).deferred_actions@ == if save {
                    old(self).deferred_actions@.push(DeferredAction::SaveConnection(t))
                } else {
                    old(self).deferred_actions@
                }
                &&& final(self).temp_connection matches Some(c) && is_default_connection(c)
                &&& *final(self) == (LsyShell {
                    new_dialog: final(self).new_dialog,
                    deferred_actions: final(self).deferred_actions,
                    temp_connection: final(self).temp_connection,
                    ..*old(self)
                })
            },
            old(self).temp_connection is None ==> *final(self) == *old(self),
    {
        if self.temp_connection.is_some() {
            self.new_dialog.show = false;
            if save {
                let saved = match &self.temp_connection {
                    Some(t) => t.clone(),
                    None => SshConnection::default(),
                };
                self.deferred_actions.push(DeferredAction::SaveConnection(saved));
            }
            self.temp_connection = Some(SshConnection::default());
        }
    }

    /// Applies the most recently queued change to the saved connections and
    /// hands it back, or `None` when nothing is queued.
    pub fn apply_next_deferred(&mut self) -> (r: Option<DeferredAction>)
        ensures
            old(self).deferred_actions@.len() == 0 ==> r is None && *final(self) == *old(self),
            old(self).deferred_actions@.len() > 0 ==> {
                &&& r == Some(old(self).deferred_actions@.last())
                &&& final(self).deferred_actions@ == old(self).deferred_actions@.drop_last()
                &&& final(self).connections@ == apply_action(
                    old(self).connections@,
                    old(self).deferred_actions@.last(),
                )
                &&& *final(self) == (LsyShell {
                    connections: final(self).connections,
                    deferred_actions: final(self).deferred_actions,
                    ..*old(self)
                })
            },
    {
        if self.deferred_actions.len() == 0 {
            return None;
        }
        match self.deferred_actions.pop() {
            None => None,
            Some(action) => {
                let handed = action.clone();
                match action {
                    DeferredAction::SaveConnection(conn) => {
                        let key = conn.name.clone();
                        self.connections.insert(key, conn);
                    },
                    DeferredAction::DeleteConnection(conn) => {
                        self.connections.remove(conn.name.as_str());
                    },
                }
                Some(handed)
            },
        }
    }
}

/// Law: the output pane keeps at most `MAX_LINES` lines, as a suffix of the
/// text; exactly `MAX_LINES` when there were at least that many; all of the
/// text when there were fewer; and trimming twice is trimming once.
pub proof fn law_kept_lines(s: Seq<char>)
    ensures
        newline_count(keep_last_lines(s)) <= MAX_LINES - 1,
        exists|k: int| 0 <= k <= s.len() && #[trigger] s.skip(k) == keep_last_lines(s),
        newline_count(s) >= MAX_LINES - 1 ==> newline_count(keep_last_lines(s)) == MAX_LINES - 1,
        newline_count(s) < MAX_LINES ==> keep_last_lines(s) == s,
        keep_last_lines(keep_last_lines(s)) == keep_last_lines(s),
{
    lemma_tail_within_props(s, newline_weight(), (MAX_LINES - 1) as nat);
    lemma_tail_within_idempotent(s, newline_weight(), (MAX_LINES - 1) as nat);
    if newline_count(s) >= MAX_LINES - 1 {
        assert forall|c: char| #[trigger] newline_weight()(c) <= 1 by {}
        lemma_tail_within_exact(s, newline_weight(), (MAX_LINES - 1) as nat);
    }
}

/// Law: after a queued save is applied, the saved connection is found under
/// its name and every other name is untouched; after a queued deletion, the
/// name is gone and every other name is untouched.
pub proof fn law_applied_actions(m: Map<Seq<char>, SshConnection>, c: SshConnection, other: Seq<char>)
    requires
        other != c.name@,
    ensures
        apply_action(m, DeferredAction::SaveConnection(c)).dom().contains(c.name@),
        apply_action(m, DeferredAction::SaveConnection(c))[c.name@] == c,
        !apply_action(m, DeferredAction::DeleteConnection(c)).dom().contains(c.name@),
        apply_action(m, DeferredAction::SaveConnection(c)).dom().contains(other) == m.dom().contains(other),
        apply_action(m, DeferredAction::DeleteConnection(c)).dom().contains(other) == m.dom().contains(other),
        m.dom().contains(other) ==> apply_action(m, DeferredAction::SaveConnection(c))[other] == m[other],
        m.dom().contains(other) ==> apply_action(m, DeferredAction::DeleteConnection(c))[other] == m[other],
{
}

} // verus!
