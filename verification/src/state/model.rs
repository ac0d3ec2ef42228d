//! The types of the state model and their mathematical views.
use vstd::prelude::*;
use crate::config::Shell;
use crate::text::opt_str;
use crate::state::{OutputSpan, SpanV, clone_spans, spans_view};

verus! {

/// Display status of a session (the colour of its status dot).
#[derive(Debug, Clone, Copy, PartialEq, Eq, Structural)]
pub enum SessionStatus {
    /// Waiting at the prompt.
    Live,
    /// A command is running.
    Busy,
    /// The last command exited non-zero.
    Error,
    /// In the background, or the shell has exited.
    Idle,
}

/// One command execution.
#[derive(Debug, Clone)]
pub struct Block {
    pub id: String,
    pub cmd: String,
    pub pwd: String,
    /// Display time ("14:02").
    pub time: String,
    /// Unix time (seconds) at which the command was sent.
    pub started_at_unix: u64,
    /// Output is still being captured.
    pub running: bool,
    /// Exit code, when the shell reported one.
    pub exit_code: Option<i32>,
    pub output: Vec<OutputSpan>,
}

/// One open terminal session.
#[derive(Debug, Clone)]
pub struct Session {
    pub id: String,
    pub name: String,
    pub pwd: String,
    pub status: SessionStatus,
    pub pinned: bool,
    /// "user@host" of a remote session.
    pub remote: Option<String>,
    /// A runtime label such as "v22.16.0".
    pub node: Option<String>,
    /// The command blocks, oldest first.
    pub blocks: Vec<Block>,
    /// The real working directory reported by the shell (OSC 7).
    pub cwd: Option<String>,
    /// The input line.
    pub input_buffer: String,
    /// Submitted commands, oldest first.
    pub history: Vec<String>,
    /// Position while browsing the history; `None` while typing a new line.
    pub history_cursor: Option<usize>,
    /// The alternate screen (vim, less) is shown.
    pub alt_screen: bool,
    /// The shell has exited; input is refused until a restart.
    pub shell_exited: bool,
}

/// A favourite directory on the shelf.
#[derive(Debug, Clone)]
pub struct ShelfItem {
    pub id: String,
    pub label: String,
    pub path: String,
    /// Filter tag ("work", "personal", "remote", ...).
    pub tag: String,
    pub remote: Option<String>,
    pub uses: u32,
}

/// An entry of the command catalogue.
#[derive(Debug, Clone)]
pub struct Command {
    pub id: String,
    pub cmd: String,
    pub desc: Option<String>,
    pub pinned: bool,
    pub uses: u32,
    /// Unix time (seconds) of the last run; only commands that ran have one.
    pub last_used: Option<u64>,
}

/// What an inline rename edits.
#[derive(Debug, Clone, PartialEq, Eq)]
pub enum RenameTarget {
    Session(String),
    Shelf(String),
    Command(String),
}

/// A request for the PTY layer, queued by the state and drained by the app.
#[derive(Debug, Clone, PartialEq, Eq)]
pub enum PendingPty {
    /// Start the shell of a new session in `cwd` (a display path).
    Spawn { id: String, cwd: String },
    /// Send a submitted command line.
    Send { id: String, bytes: Vec<u8> },
    /// Send raw bytes (control characters, stdin of a running command).
    SendRaw { id: String, bytes: Vec<u8> },
    /// End the shell of a session.
    Close { id: String },
}

/// UI state.
#[derive(Debug, Clone)]
pub struct UiState {
    pub active_session_id: Option<String>,
    pub rail_left_visible: bool,
    pub rail_right_visible: bool,
    /// The shell chosen on the input line.
    pub shell: Shell,
    /// The global search field.
    pub search_query: String,
    /// What an inline rename edits, if one is open.
    pub rename_target: Option<RenameTarget>,
    pub rename_buffer: String,
    /// Focus the rename field on the next frame.
    pub rename_focus_pending: bool,
    /// The inline form to add a command is open.
    pub command_add_active: bool,
    pub command_add_cmd: String,
    pub command_add_desc: String,
    /// Focus the command field of the form on the next frame.
    pub command_add_focus_pending: bool,
}

/// The subset of the state kept between runs.
#[derive(Debug, Clone)]
pub struct PersistentState {
    pub sessions: Vec<PersistentSession>,
    pub active_session_id: Option<String>,
    pub shelf: Vec<ShelfItem>,
    /// The command catalogue; when empty the built-in one is used.
    pub commands: Vec<Command>,
    pub rail_left_visible: bool,
    pub rail_right_visible: bool,
    pub shell: Shell,
}

/// What is kept of a session between runs.
#[derive(Debug, Clone)]
pub struct PersistentSession {
    pub id: String,
    pub name: String,
    pub pwd: String,
    pub pinned: bool,
}

/// The whole application state.
#[derive(Debug, Clone)]
pub struct AppState {
    pub sessions: Vec<Session>,
    pub shelf: Vec<ShelfItem>,
    pub commands: Vec<Command>,
    pub ui: UiState,
    /// Counter for the ids of new sessions, blocks, commands and shelf items.
    pub next_id: u64,
    /// PTY requests, drained by the app every frame.
    pub pending: Vec<PendingPty>,
    /// The user's home directory, used to show paths under it with `~`.
    pub home: Option<String>,
}

// ---------------------------------------------------------------- views

pub struct BlockV {
    pub id: Seq<char>,
    pub cmd: Seq<char>,
    pub pwd: Seq<char>,
    pub time: Seq<char>,
    pub started_at_unix: u64,
    pub running: bool,
    pub exit_code: Option<i32>,
    pub output: Seq<SpanV>,
}

impl View for Block {
    type V = BlockV;

    open spec fn view(&self) -> BlockV {
        BlockV {
            id: self.id@,
            cmd: self.cmd@,
            pwd: self.pwd@,
            time: self.time@,
            started_at_unix: self.started_at_unix,
            running: self.running,
            exit_code: self.exit_code,
            output: spans_view(self.output@),
        }
    }
}

pub open spec fn blocks_view(v: Seq<Block>) -> Seq<BlockV> {
    v.map_values(|b: Block| b@)
}

pub open spec fn strs_view(v: Seq<String>) -> Seq<Seq<char>> {
    v.map_values(|s: String| s@)
}

pub struct SessionV {
    pub id: Seq<char>,
    pub name: Seq<char>,
    pub pwd: Seq<char>,
    pub status: SessionStatus,
    pub pinned: bool,
    pub remote: Option<Seq<char>>,
    pub node: Option<Seq<char>>,
    pub blocks: Seq<BlockV>,
    pub cwd: Option<Seq<char>>,
    pub input_buffer: Seq<char>,
    pub history: Seq<Seq<char>>,
    pub history_cursor: Option<usize>,
    pub alt_screen: bool,
    pub shell_exited: bool,
}

impl View for Session {
    type V = SessionV;

    open spec fn view(&self) -> SessionV {
        SessionV {
            id: self.id@,
            name: self.name@,
            pwd: self.pwd@,
            status: self.status,
            pinned: self.pinned,
            remote: opt_str(self.remote),
            node: opt_str(self.node),
            blocks: blocks_view(self.blocks@),
            cwd: opt_str(self.cwd),
            input_buffer: self.input_buffer@,
            history: strs_view(self.history@),
            history_cursor: self.history_cursor,
            alt_screen: self.alt_screen,
            shell_exited: self.shell_exited,
        }
    }
}

pub open spec fn sessions_view(v: Seq<Session>) -> Seq<SessionV> {
    v.map_values(|s: Session| s@)
}

pub struct ShelfV {
    pub id: Seq<char>,
    pub label: Seq<char>,
    pub path: Seq<char>,
    pub tag: Seq<char>,
    pub remote: Option<Seq<char>>,
    pub uses: u32,
}

impl View for ShelfItem {
    type V = ShelfV;

    open spec fn view(&self) -> ShelfV {
        ShelfV {
            id: self.id@,
            label: self.label@,
            path: self.path@,
            tag: self.tag@,
            remote: opt_str(self.remote),
            uses: self.uses,
        }
    }
}

pub open spec fn shelf_view(v: Seq<ShelfItem>) -> Seq<ShelfV> {
    v.map_values(|s: ShelfItem| s@)
}

pub struct CommandV {
    pub id: Seq<char>,
    pub cmd: Seq<char>,
    pub desc: Option<Seq<char>>,
    pub pinned: bool,
    pub uses: u32,
    pub last_used: Option<u64>,
}

impl View for Command {
    type V = CommandV;

    open spec fn view(&self) -> CommandV {
        CommandV {
            id: self.id@,
            cmd: self.cmd@,
            desc: opt_str(self.desc),
            pinned: self.pinned,
            uses: self.uses,
            last_used: self.last_used,
        }
    }
}

pub open spec fn commands_view(v: Seq<Command>) -> Seq<CommandV> {
    v.map_values(|c: Command| c@)
}

pub enum RenameV {
    Session(Seq<char>),
    Shelf(Seq<char>),
    Command(Seq<char>),
}

impl View for RenameTarget {
    type V = RenameV;

    open spec fn view(&self) -> RenameV {
        match self {
            RenameTarget::Session(s) => RenameV::Session(s@),
            RenameTarget::Shelf(s) => RenameV::Shelf(s@),
            RenameTarget::Command(s) => RenameV::Command(s@),
        }
    }
}

pub open spec fn opt_rename(o: Option<RenameTarget>) -> Option<RenameV> {
    match o {
        Some(t) => Some(t@),
        None => None,
    }
}

pub enum PendingV {
    Spawn { id: Seq<char>, cwd: Seq<char> },
    Send { id: Seq<char>, bytes: Seq<u8> },
    SendRaw { id: Seq<char>, bytes: Seq<u8> },
    Close { id: Seq<char> },
}

impl View for PendingPty {
    type V = PendingV;

    open spec fn view(&self) -> PendingV {
        match self {
            PendingPty::Spawn { id, cwd } => PendingV::Spawn { id: id@, cwd: cwd@ },
            PendingPty::Send { id, bytes } => PendingV::Send { id: id@, bytes: bytes@ },
            PendingPty::SendRaw { id, bytes } => PendingV::SendRaw { id: id@, bytes: bytes@ },
            PendingPty::Close { id } => PendingV::Close { id: id@ },
        }
    }
}

pub open spec fn pending_view(v: Seq<PendingPty>) -> Seq<PendingV> {
    v.map_values(|p: PendingPty| p@)
}

pub struct UiV {
    pub active: Option<Seq<char>>,
    pub rail_left_visible: bool,
    pub rail_right_visible: bool,
    pub shell: Shell,
    pub search_query: Seq<char>,
    pub rename_target: Option<RenameV>,
    pub rename_buffer: Seq<char>,
    pub rename_focus_pending: bool,
    pub command_add_active: bool,
    pub command_add_cmd: Seq<char>,
    pub command_add_desc: Seq<char>,
    pub command_add_focus_pending: bool,
}

impl View for UiState {
    type V = UiV;

    open spec fn view(&self) -> UiV {
        UiV {
            active: opt_str(self.active_session_id),
            rail_left_visible: self.rail_left_visible,
            rail_right_visible: self.rail_right_visible,
            shell: self.shell,
            search_query: self.search_query@,
            rename_target: opt_rename(self.rename_target),
            rename_buffer: self.rename_buffer@,
            rename_focus_pending: self.rename_focus_pending,
            command_add_active: self.command_add_active,
            command_add_cmd: self.command_add_cmd@,
            command_add_desc: self.command_add_desc@,
            command_add_focus_pending: self.command_add_focus_pending,
        }
    }
}

pub struct AppV {
    pub sessions: Seq<SessionV>,
    pub shelf: Seq<ShelfV>,
    pub commands: Seq<CommandV>,
    pub ui: UiV,
    pub next_id: u64,
    pub pending: Seq<PendingV>,
    pub home: Option<Seq<char>>,
}

impl View for AppState {
    type V = AppV;

    open spec fn view(&self) -> AppV {
        AppV {
            sessions: sessions_view(self.sessions@),
            shelf: shelf_view(self.shelf@),
            commands: commands_view(self.commands@),
            ui: self.ui@,
            next_id: self.next_id,
            pending: pending_view(self.pending@),
            home: opt_str(self.home),
        }
    }
}

pub struct PersistentSessionV {
    pub id: Seq<char>,
    pub name: Seq<char>,
    pub pwd: Seq<char>,
    pub pinned: bool,
}

impl View for PersistentSession {
    type V = PersistentSessionV;

    open spec fn view(&self) -> PersistentSessionV {
        PersistentSessionV { id: self.id@, name: self.name@, pwd: self.pwd@, pinned: self.pinned }
    }
}

pub struct PersistentV {
    pub sessions: Seq<PersistentSessionV>,
    pub active: Option<Seq<char>>,
    pub shelf: Seq<ShelfV>,
    pub commands: Seq<CommandV>,
    pub rail_left_visible: bool,
    pub rail_right_visible: bool,
    pub shell: Shell,
}

impl View for PersistentState {
    type V = PersistentV;

    open spec fn view(&self) -> PersistentV {
        PersistentV {
            sessions: self.sessions@.map_values(|s: PersistentSession| s@),
            active: opt_str(self.active_session_id),
            shelf: shelf_view(self.shelf@),
            commands: commands_view(self.commands@),
            rail_left_visible: self.rail_left_visible,
            rail_right_visible: self.rail_right_visible,
            shell: self.shell,
        }
    }
}

// ---------------------------------------------------------------- copies

/// A copy of an optional string.
pub fn copy_opt(o: &Option<String>) -> (r: Option<String>)
    ensures
        opt_str(r) == opt_str(*o),
{
    match o {
        Some(s) => Some(s.clone()),
        None => None,
    }
}

impl Block {
    /// A copy of the block.
    pub fn duplicate(&self) -> (r: Block)
        ensures
            r@ == self@,
    {
        Block {
            id: self.id.clone(),
            cmd: self.cmd.clone(),
            pwd: self.pwd.clone(),
            time: self.time.clone(),
            started_at_unix: self.started_at_unix,
            running: self.running,
            exit_code: self.exit_code,
            output: clone_spans(&self.output),
        }
    }
}

impl ShelfItem {
    /// A copy of the shelf item.
    pub fn duplicate(&self) -> (r: ShelfItem)
        ensures
            r@ == self@,
    {
        ShelfItem {
            id: self.id.clone(),
            label: self.label.clone(),
            path: self.path.clone(),
            tag: self.tag.clone(),
            remote: copy_opt(&self.remote),
            uses: self.uses,
        }
    }
}

impl Command {
    /// A copy of the command.
    pub fn duplicate(&self) -> (r: Command)
        ensures
            r@ == self@,
    {
        Command {
            id: self.id.clone(),
            cmd: self.cmd.clone(),
            desc: copy_opt(&self.desc),
            pinned: self.pinned,
            uses: self.uses,
            last_used: self.last_used,
        }
    }
}

/// A copy of the shelf.
pub fn copy_shelf(v: &Vec<ShelfItem>) -> (r: Vec<ShelfItem>)
    ensures
        shelf_view(r@) == shelf_view(v@),
{
    let mut r: Vec<ShelfItem> = Vec::new();
    let mut i: usize = 0;
    while i < v.len()
        invariant
            i <= v@.len(),
            r@.len() == i,
            forall|j: int| 0 <= j < i ==> (#[trigger] r@[j])@ == v@[j]@,
        decreases v@.len() - i,
    {
        r.push(v[i].duplicate());
        i = i + 1;
    }
    assert(shelf_view(r@) =~= shelf_view(v@));
    r
}

/// A copy of the command catalogue.
pub fn copy_commands(v: &Vec<Command>) -> (r: Vec<Command>)
    ensures
        commands_view(r@) == commands_view(v@),
{
    let mut r: Vec<Command> = Vec::new();
    let mut i: usize = 0;
    while i < v.len()
        invariant
            i <= v@.len(),
            r@.len() == i,
            forall|j: int| 0 <= j < i ==> (#[trigger] r@[j])@ == v@[j]@,
        decreases v@.len() - i,
    {
        r.push(v[i].duplicate());
        i = i + 1;
    }
    assert(commands_view(r@) =~= commands_view(v@));
    r
}

} // verus!
