//! Sessions, input submission and the command catalogue.
use vstd::prelude::*;
use crate::num::{decimal, push_decimal};
use crate::state::model::{
    AppState, AppV, Block, BlockV, Command, CommandV, PendingPty, PendingV, Session, SessionStatus,
    SessionV, ShelfItem, ShelfV, UiV, blocks_view, commands_view, pending_view, sessions_view,
    shelf_view, strs_view,
};
use crate::state::edit::{cancel_rename_spec, commit_rename_spec};
use crate::text::{opt_idx, opt_str, push_char, str_eq, trim, trimmed};
use crate::ui::central::{has_running, has_running_spec};
use crate::state::complete::step_spec;
use vstd::slice::slice_to_vec;
use vstd::utf8::encode_utf8;

verus! {

// ---------------------------------------------------------------- searching

/// The first index at or after `k` whose element satisfies `p`.
pub open spec fn first_index<T>(s: Seq<T>, p: spec_fn(T) -> bool, k: int) -> Option<int>
    decreases s.len() - k,
{
    if k < 0 || k >= s.len() {
        None
    } else if p(s[k]) {
        Some(k)
    } else {
        first_index(s, p, k + 1)
    }
}

/// What `first_index` finds: the first element that satisfies `p`, or that
/// none does.
pub proof fn lemma_first_index<T>(s: Seq<T>, p: spec_fn(T) -> bool, k: int)
    requires
        0 <= k,
    ensures
        match first_index(s, p, k) {
            Some(i) => k <= i < s.len() && p(s[i]) && forall|j: int| k <= j < i ==> !p(#[trigger] s[j]),
            None => forall|j: int| k <= j < s.len() ==> !p(#[trigger] s[j]),
        },
    decreases s.len() - k,
{
    if k < s.len() && !p(s[k]) {
        lemma_first_index(s, p, k + 1);
    }
}

/// Filtering a sequence with one more element at its end.
pub proof fn lemma_filter_push<T>(s: Seq<T>, p: spec_fn(T) -> bool, x: T)
    ensures
        s.push(x).filter(p) == (if p(x) {
            s.filter(p).push(x)
        } else {
            s.filter(p)
        }),
{
    reveal(Seq::filter);
    assert(s.push(x).drop_last() =~= s);
}

pub open spec fn session_is(id: Seq<char>) -> spec_fn(SessionV) -> bool {
    |s: SessionV| s.id == id
}

pub open spec fn shelf_is(id: Seq<char>) -> spec_fn(ShelfV) -> bool {
    |s: ShelfV| s.id == id
}

pub open spec fn command_is(id: Seq<char>) -> spec_fn(CommandV) -> bool {
    |c: CommandV| c.id == id
}

pub open spec fn command_text_is(cmd: Seq<char>) -> spec_fn(CommandV) -> bool {
    |c: CommandV| c.cmd == cmd
}

/// The first session with the id.
pub open spec fn find_session(ss: Seq<SessionV>, id: Seq<char>) -> Option<int> {
    first_index(ss, session_is(id), 0)
}

/// The first shelf item with the id.
pub open spec fn find_shelf(ss: Seq<ShelfV>, id: Seq<char>) -> Option<int> {
    first_index(ss, shelf_is(id), 0)
}

/// The first command with the id.
pub open spec fn find_command(cs: Seq<CommandV>, id: Seq<char>) -> Option<int> {
    first_index(cs, command_is(id), 0)
}

/// The index of the active session: the first session with the active id.
pub open spec fn active_index(st: AppV) -> Option<int> {
    match st.ui.active {
        Some(id) => find_session(st.sessions, id),
        None => None,
    }
}

pub(crate) fn find_session_index(sessions: &Vec<Session>, id: &str) -> (r: Option<usize>)
    ensures
        opt_idx(r) == find_session(sessions_view(sessions@), id@),
        r matches Some(i) ==> i < sessions@.len(),
{
    let ghost ss = sessions_view(sessions@);
    let mut i: usize = 0;
    while i < sessions.len()
        invariant
            i <= sessions@.len(),
            ss == sessions_view(sessions@),
            find_session(ss, id@) == first_index(ss, session_is(id@), i as int),
        decreases sessions@.len() - i,
    {
        if str_eq(sessions[i].id.as_str(), id) {
            return Some(i);
        }
        i = i + 1;
    }
    None
}

pub(crate) fn find_shelf_index(shelf: &Vec<ShelfItem>, id: &str) -> (r: Option<usize>)
    ensures
        opt_idx(r) == find_shelf(shelf_view(shelf@), id@),
        r matches Some(i) ==> i < shelf@.len(),
{
    let ghost ss = shelf_view(shelf@);
    let mut i: usize = 0;
    while i < shelf.len()
        invariant
            i <= shelf@.len(),
            ss == shelf_view(shelf@),
            find_shelf(ss, id@) == first_index(ss, shelf_is(id@), i as int),
        decreases shelf@.len() - i,
    {
        if str_eq(shelf[i].id.as_str(), id) {
            return Some(i);
        }
        i = i + 1;
    }
    None
}

pub(crate) fn find_command_index(commands: &Vec<Command>, id: &str) -> (r: Option<usize>)
    ensures
        opt_idx(r) == find_command(commands_view(commands@), id@),
        r matches Some(i) ==> i < commands@.len(),
{
    let ghost cs = commands_view(commands@);
    let mut i: usize = 0;
    while i < commands.len()
        invariant
            i <= commands@.len(),
            cs == commands_view(commands@),
            find_command(cs, id@) == first_index(cs, command_is(id@), i as int),
        decreases commands@.len() - i,
    {
        if str_eq(commands[i].id.as_str(), id) {
            return Some(i);
        }
        i = i + 1;
    }
    None
}

fn find_command_text(commands: &Vec<Command>, cmd: &str) -> (r: Option<usize>)
    ensures
        opt_idx(r) == first_index(commands_view(commands@), command_text_is(cmd@), 0),
        r matches Some(i) ==> i < commands@.len(),
{
    let ghost cs = commands_view(commands@);
    let mut i: usize = 0;
    while i < commands.len()
        invariant
            i <= commands@.len(),
            cs == commands_view(commands@),
            first_index(cs, command_text_is(cmd@), 0) == first_index(cs, command_text_is(cmd@), i as int),
        decreases commands@.len() - i,
    {
        if str_eq(commands[i].cmd.as_str(), cmd) {
            return Some(i);
        }
        i = i + 1;
    }
    None
}

// ---------------------------------------------------------------- ids

/// The text of a fresh id: a one-letter prefix and the counter.
pub open spec fn id_text(prefix: char, n: u64) -> Seq<char> {
    seq![prefix] + decimal(n as nat)
}

/// Whether `n` more ids can be taken without the counter overflowing.
pub open spec fn ids_available(st: AppV, n: int) -> bool {
    st.next_id + n <= u64::MAX
}

impl AppState {
    /// Takes the next id, with the given prefix.
    pub(crate) fn fresh_id(&mut self, prefix: char) -> (r: String)
        requires
            old(self).next_id < u64::MAX,
        ensures
            r@ == id_text(prefix, old(self).next_id),
            final(self)@ == (AppV { next_id: (old(self).next_id + 1) as u64, ..old(self)@ }),
    {
        let id = self.next_id;
        self.next_id = self.next_id + 1;
        let mut s = String::new();
        push_char(&mut s, prefix);
        push_decimal(&mut s, id);
        assert(s@ =~= id_text(prefix, id));
        s
    }
}

// ---------------------------------------------------------------- sessions

/// A new session: live, empty, with the given id, name and path.
pub open spec fn new_session_v(id: Seq<char>, name: Seq<char>, pwd: Seq<char>) -> SessionV {
    SessionV {
        id,
        name,
        pwd,
        status: SessionStatus::Live,
        pinned: false,
        remote: None,
        node: None,
        blocks: Seq::empty(),
        cwd: None,
        input_buffer: Seq::empty(),
        history: Seq::empty(),
        history_cursor: None,
        alt_screen: false,
        shell_exited: false,
    }
}

pub(crate) fn new_session_value(id: String, name: String, pwd: String) -> (r: Session)
    ensures
        r@ == new_session_v(id@, name@, pwd@),
{
    let r = Session {
        id,
        name,
        pwd,
        status: SessionStatus::Live,
        pinned: false,
        remote: None,
        node: None,
        blocks: Vec::new(),
        cwd: None,
        input_buffer: String::new(),
        history: Vec::new(),
        history_cursor: None,
        alt_screen: false,
        shell_exited: false,
    };
    assert(r@.blocks =~= Seq::<BlockV>::empty());
    assert(r@.history =~= Seq::<Seq<char>>::empty());
    r
}

/// `focus_session`: an open rename is committed first; then the session
/// becomes active if it exists.
pub open spec fn focus_spec(st: AppV, id: Seq<char>) -> AppV {
    let s1 = if st.ui.rename_target is Some {
        commit_rename_spec(st)
    } else {
        st
    };
    if find_session(s1.sessions, id) is Some {
        AppV { ui: UiV { active: Some(id), ..s1.ui }, ..s1 }
    } else {
        s1
    }
}

/// `new_session`: appended, active, its shell queued for start.
pub open spec fn new_session_spec(st: AppV, label: Seq<char>, pwd: Seq<char>) -> AppV {
    let id = id_text('s', st.next_id);
    AppV {
        sessions: st.sessions.push(new_session_v(id, label, pwd)),
        ui: UiV { active: Some(id), ..st.ui },
        next_id: (st.next_id + 1) as u64,
        pending: st.pending.push(PendingV::Spawn { id, cwd: pwd }),
        ..st
    }
}

/// The session that becomes active when the one at `pos` is removed: the
/// one that takes its place, else the new last one.
pub open spec fn neighbor_active(rest: Seq<SessionV>, pos: int) -> Option<Seq<char>> {
    if pos < rest.len() {
        Some(rest[pos].id)
    } else if rest.len() > 0 {
        Some(rest.last().id)
    } else {
        None
    }
}

/// `close_session`: the last session is never closed; an unknown id changes
/// nothing. Otherwise the session is removed, a neighbour takes over as the
/// active one if it was active, its rename is cancelled, and its shell is
/// queued to close.
pub open spec fn close_spec(st: AppV, id: Seq<char>) -> (AppV, bool) {
    if st.sessions.len() <= 1 {
        (st, false)
    } else {
        match find_session(st.sessions, id) {
            None => (st, false),
            Some(pos) => {
                let rest = st.sessions.remove(pos);
                let active = if st.ui.active == Some(id) {
                    neighbor_active(rest, pos)
                } else {
                    st.ui.active
                };
                let s1 = AppV { sessions: rest, ui: UiV { active, ..st.ui }, ..st };
                let s2 = if s1.ui.rename_target == Some(crate::state::model::RenameV::Session(id)) {
                    cancel_rename_spec(s1)
                } else {
                    s1
                };
                (AppV { pending: s2.pending.push(PendingV::Close { id }), ..s2 }, true)
            },
        }
    }
}

/// Whether some session with the id has an exited shell.
pub open spec fn exited_with_id(ss: Seq<SessionV>, id: Seq<char>) -> bool {
    exists|j: int| 0 <= j < ss.len() && (#[trigger] ss[j]).id == id && ss[j].shell_exited
}

/// `push_pty_send_raw`: raw bytes for the active session's shell, unless
/// they are empty, nothing is active, or a session with that id has exited.
pub open spec fn send_raw_spec(st: AppV, bytes: Seq<u8>) -> AppV {
    if bytes.len() == 0 {
        st
    } else {
        match st.ui.active {
            None => st,
            Some(id) => if exited_with_id(st.sessions, id) {
                st
            } else {
                AppV { pending: st.pending.push(PendingV::SendRaw { id, bytes }), ..st }
            },
        }
    }
}

/// Whether the active session's shell has exited.
pub open spec fn active_exited(st: AppV) -> bool {
    match active_index(st) {
        Some(i) => st.sessions[i].shell_exited,
        None => false,
    }
}

/// `submit_input_as_stdin`: the input line, with a newline, goes raw to the
/// running program; the line is cleared.
pub open spec fn stdin_spec(st: AppV) -> AppV {
    if active_exited(st) {
        st
    } else {
        match active_index(st) {
            None => st,
            Some(i) => {
                let s = st.sessions[i];
                let s1 = AppV {
                    sessions: st.sessions.update(i, SessionV { input_buffer: Seq::empty(), ..s }),
                    ..st
                };
                send_raw_spec(s1, encode_utf8(s.input_buffer).push(10u8))
            },
        }
    }
}

impl AppState {
    /// The active session, if any.
    pub fn active(&self) -> (r: Option<&Session>)
        ensures
            match active_index(self@) {
                Some(i) => r is Some && r.unwrap()@ == self@.sessions[i],
                None => r is None,
            },
    {
        match &self.ui.active_session_id {
            None => None,
            Some(id) => match find_session_index(&self.sessions, id.as_str()) {
                Some(i) => Some(&self.sessions[i]),
                None => None,
            },
        }
    }

    /// Index of the active session, if any.
    pub fn active_position(&self) -> (r: Option<usize>)
        ensures
            opt_idx(r) == active_index(self@),
            r matches Some(i) ==> i < self.sessions@.len(),
    {
        match &self.ui.active_session_id {
            None => None,
            Some(id) => find_session_index(&self.sessions, id.as_str()),
        }
    }

    /// Makes the session active; an open rename is committed first.
    pub fn focus_session(&mut self, id: &str)
        ensures
            final(self)@ == focus_spec(old(self)@, id@),
    {
        if self.ui.rename_target.is_some() {
            self.commit_rename();
        }
        if find_session_index(&self.sessions, id).is_some() {
            self.ui.active_session_id = Some(id.to_owned());
        }
    }

    /// Appends a new session, makes it active, and queues its shell start.
    /// Returns the new id.
    pub fn new_session(&mut self, label: &str, pwd: &str) -> (r: String)
        requires
            old(self).next_id < u64::MAX,
        ensures
            r@ == id_text('s', old(self).next_id),
            final(self)@ == new_session_spec(old(self)@, label@, pwd@),
    {
        let ghost st = self@;
        let id = self.fresh_id('s');
        let session = new_session_value(id.clone(), label.to_owned(), pwd.to_owned());
        self.sessions.push(session);
        self.ui.active_session_id = Some(id.clone());
        self.pending.push(PendingPty::Spawn { id: id.clone(), cwd: pwd.to_owned() });
        assert(self@.sessions =~= new_session_spec(st, label@, pwd@).sessions);
        assert(self@.pending =~= new_session_spec(st, label@, pwd@).pending);
        id
    }

    /// Closes the session. The last one is never closed: `false` is
    /// returned then, and for an unknown id.
    pub fn close_session(&mut self, id: &str) -> (r: bool)
        ensures
            (final(self)@, r) == close_spec(old(self)@, id@),
            old(self)@.sessions.len() >= 1 ==> final(self)@.sessions.len() >= 1,
    {
        let ghost st = self@;
        if self.sessions.len() <= 1 {
            return false;
        }
        let pos = match find_session_index(&self.sessions, id) {
            None => return false,
            Some(p) => p,
        };
        proof {
            lemma_first_index(st.sessions, session_is(id@), 0);
        }
        self.sessions.remove(pos);
        assert(sessions_view(self.sessions@) =~= st.sessions.remove(pos as int));
        let was_active = match &self.ui.active_session_id {
            Some(a) => str_eq(a.as_str(), id),
            None => false,
        };
        if was_active {
            let n = self.sessions.len();
            if pos < n {
                self.ui.active_session_id = Some(self.sessions[pos].id.clone());
            } else if n > 0 {
                self.ui.active_session_id = Some(self.sessions[n - 1].id.clone());
            } else {
                self.ui.active_session_id = None;
            }
        }
        if self.is_renaming_session(id) {
            self.cancel_rename();
        }
        self.pending.push(PendingPty::Close { id: id.to_owned() });
        assert(self@.pending =~= close_spec(st, id@).0.pending);
        true
    }

    /// Queues raw bytes (control characters) for the active session's shell.
    /// Nothing happens for empty bytes, without an active session, or when
    /// its shell has exited.
    pub fn push_pty_send_raw(&mut self, bytes: Vec<u8>)
        ensures
            final(self)@ == send_raw_spec(old(self)@, bytes@),
    {
        let ghost st = self@;
        if bytes.len() == 0 {
            return;
        }
        let id = match &self.ui.active_session_id {
            None => return,
            Some(a) => a.clone(),
        };
        let mut j: usize = 0;
        while j < self.sessions.len()
            invariant
                self@ == st,
                st.ui.active == Some(id@),
                j <= self.sessions@.len(),
                forall|k: int| 0 <= k < j ==> !((#[trigger] st.sessions[k]).id == id@ && st.sessions[k].shell_exited),
            decreases self.sessions@.len() - j,
        {
            if self.sessions[j].shell_exited && str_eq(self.sessions[j].id.as_str(), id.as_str()) {
                assert(st.sessions[j as int].id == id@ && st.sessions[j as int].shell_exited);
                return;
            }
            j = j + 1;
        }
        self.pending.push(PendingPty::SendRaw { id, bytes });
        assert(self@.pending =~= send_raw_spec(st, bytes@).pending);
    }

    /// Sends the input line, with a newline, to the running program's stdin;
    /// the line is cleared. No block is created. Nothing happens when the
    /// active session's shell has exited.
    pub fn submit_input_as_stdin(&mut self)
        ensures
            final(self)@ == stdin_spec(old(self)@),
    {
        let ghost st = self@;
        let i = match self.active_position() {
            None => return,
            Some(i) => i,
        };
        if self.sessions[i].shell_exited {
            return;
        }
        let mut buf = String::new();
        std::mem::swap(&mut buf, &mut self.sessions[i].input_buffer);
        let ghost s1 = self@;
        assert(s1.sessions =~= st.sessions.update(i as int, SessionV { input_buffer: Seq::empty(), ..st.sessions[i as int] }));
        let mut bytes: Vec<u8> = slice_to_vec(buf.as_str().as_bytes());
        bytes.push(10u8);
        self.push_pty_send_raw(bytes);
    }
}

// ---------------------------------------------------------------- submission

/// Every block marked as no longer running.
pub open spec fn close_all(bs: Seq<BlockV>) -> Seq<BlockV> {
    bs.map_values(|b: BlockV| BlockV { running: false, ..b })
}

/// The history with `cmd` appended, unless it is already the last entry.
pub open spec fn history_push(h: Seq<Seq<char>>, cmd: Seq<char>) -> Seq<Seq<char>> {
    if h.len() > 0 && h.last() == cmd {
        h
    } else {
        h.push(cmd)
    }
}

/// A command of the catalogue that counts as recent: not pinned, and run.
pub open spec fn is_recent(c: CommandV) -> bool {
    !c.pinned && c.last_used is Some
}

pub open spec fn recent_pred() -> spec_fn(CommandV) -> bool {
    |c: CommandV| is_recent(c)
}

/// The number of recent commands.
pub open spec fn recent_count(cs: Seq<CommandV>) -> nat {
    cs.filter(recent_pred()).len()
}

/// The most recent commands kept.
pub open spec fn max_recent() -> nat {
    30
}

/// Scanning from `k` on with `best` the oldest recent command so far: the
/// oldest recent command (the first one among equally old ones).
pub open spec fn oldest_from(cs: Seq<CommandV>, k: int, best: Option<int>) -> Option<int>
    decreases cs.len() - k,
{
    if k < 0 || k >= cs.len() {
        best
    } else {
        let better = is_recent(cs[k]) && match best {
            None => true,
            Some(b) => cs[k].last_used.unwrap() < cs[b].last_used.unwrap(),
        };
        oldest_from(cs, k + 1, if better { Some(k) } else { best })
    }
}

/// The oldest recent command.
pub open spec fn oldest_recent(cs: Seq<CommandV>) -> Option<int> {
    oldest_from(cs, 0, None)
}

/// `record_recent_command`: a command already in the catalogue (the first
/// with that text, pinned or not) gets the time and one more use; a new one
/// is added as a recent entry, and when that makes more than `max_recent`
/// recent entries the oldest one is dropped.
pub open spec fn record_recent_spec(st: AppV, cmd: Seq<char>, now: u64) -> AppV {
    match first_index(st.commands, command_text_is(cmd), 0) {
        Some(k) => {
            let c = st.commands[k];
            let uses = if c.uses == u32::MAX {
                u32::MAX
            } else {
                (c.uses + 1) as u32
            };
            AppV {
                commands: st.commands.update(k, CommandV { last_used: Some(now), uses, ..c }),
                ..st
            }
        },
        None => {
            let cs = st.commands.push(
                CommandV {
                    id: id_text('c', st.next_id),
                    cmd,
                    desc: None,
                    pinned: false,
                    uses: 1,
                    last_used: Some(now),
                },
            );
            let cs2 = if recent_count(cs) > max_recent() {
                match oldest_recent(cs) {
                    Some(i) => cs.remove(i),
                    None => cs,
                }
            } else {
                cs
            };
            AppV { commands: cs2, next_id: (st.next_id + 1) as u64, ..st }
        },
    }
}

/// The block created when `cmd` is submitted.
pub open spec fn submitted_block(id: Seq<char>, cmd: Seq<char>, pwd: Seq<char>, time: Seq<char>, now: u64) -> BlockV {
    BlockV {
        id,
        cmd,
        pwd,
        time,
        started_at_unix: now,
        running: true,
        exit_code: None,
        output: Seq::empty(),
    }
}

/// `submit_input` at the time `now` (Unix seconds), shown as `time`: the
/// trimmed input line of the active session becomes a running block (any
/// block still running is closed, its exit unknown), enters the history
/// unless it repeats the last entry, is queued to be sent with a newline,
/// and is recorded as a recent command. A blank line, or no active session,
/// only uses up a block id; an exited shell changes nothing.
pub open spec fn submit_spec(st: AppV, time: Seq<char>, now: u64) -> AppV {
    if active_exited(st) {
        st
    } else {
        let block_id = id_text('b', st.next_id);
        let s1 = AppV { next_id: (st.next_id + 1) as u64, ..st };
        match active_index(s1) {
            None => s1,
            Some(i) => {
                let s = s1.sessions[i];
                let cmd = trim(s.input_buffer);
                if cmd.len() == 0 {
                    s1
                } else {
                    let s_new = SessionV {
                        input_buffer: Seq::empty(),
                        history_cursor: None,
                        history: history_push(s.history, cmd),
                        blocks: close_all(s.blocks).push(submitted_block(block_id, cmd, s.pwd, time, now)),
                        status: SessionStatus::Busy,
                        ..s
                    };
                    let s2 = AppV {
                        sessions: s1.sessions.update(i, s_new),
                        pending: s1.pending.push(PendingV::Send { id: s.id, bytes: encode_utf8(cmd).push(10u8) }),
                        ..s1
                    };
                    record_recent_spec(s2, cmd, now)
                }
            },
        }
    }
}

/// Marks every block as no longer running.
pub(crate) fn close_running(blocks: &mut Vec<Block>)
    ensures
        blocks_view(final(blocks)@) == close_all(blocks_view(old(blocks)@)),
{
    let ghost old_v = blocks_view(blocks@);
    let mut j: usize = 0;
    while j < blocks.len()
        invariant
            j <= blocks@.len(),
            blocks@.len() == old_v.len(),
            forall|k: int| 0 <= k < j ==> (#[trigger] blocks@[k])@ == (BlockV { running: false, ..old_v[k] }),
            forall|k: int| j <= k < blocks@.len() ==> (#[trigger] blocks@[k])@ == old_v[k],
        decreases blocks@.len() - j,
    {
        blocks[j].running = false;
        j = j + 1;
    }
    assert(blocks_view(blocks@) =~= close_all(old_v));
}

/// Removing an element that counts as recent leaves one recent command less.
pub proof fn lemma_remove_recent(cs: Seq<CommandV>, i: int)
    requires
        0 <= i < cs.len(),
        is_recent(cs[i]),
    ensures
        recent_count(cs.remove(i)) + 1 == recent_count(cs),
{
    let p = recent_pred();
    let a = cs.take(i);
    let b = cs.skip(i + 1);
    assert(cs =~= a + seq![cs[i]] + b);
    assert(cs.remove(i) =~= a + b);
    Seq::filter_distributes_over_add(a + seq![cs[i]], b, p);
    Seq::filter_distributes_over_add(a, seq![cs[i]], p);
    Seq::filter_distributes_over_add(a, b, p);
    lemma_filter_push(Seq::<CommandV>::empty(), p, cs[i]);
    reveal(Seq::filter);
    assert(seq![cs[i]] =~= Seq::<CommandV>::empty().push(cs[i]));
}

/// Replacing one command changes the count of recent ones by what the old
/// and the new command count for.
pub proof fn lemma_update_recent(cs: Seq<CommandV>, i: int, x: CommandV)
    requires
        0 <= i < cs.len(),
    ensures
        recent_count(cs.update(i, x)) + (if is_recent(cs[i]) { 1int } else { 0 }) == recent_count(cs) + (if is_recent(x) { 1int } else { 0 }),
{
    let p = recent_pred();
    let a = cs.take(i);
    let b = cs.skip(i + 1);
    assert(cs =~= a + seq![cs[i]] + b);
    assert(cs.update(i, x) =~= a + seq![x] + b);
    Seq::filter_distributes_over_add(a + seq![cs[i]], b, p);
    Seq::filter_distributes_over_add(a, seq![cs[i]], p);
    Seq::filter_distributes_over_add(a + seq![x], b, p);
    Seq::filter_distributes_over_add(a, seq![x], p);
    lemma_filter_push(Seq::<CommandV>::empty(), p, cs[i]);
    lemma_filter_push(Seq::<CommandV>::empty(), p, x);
    reveal(Seq::filter);
    assert(seq![cs[i]] =~= Seq::<CommandV>::empty().push(cs[i]));
    assert(seq![x] =~= Seq::<CommandV>::empty().push(x));
}

/// What `oldest_from` finds is a recent command.
pub proof fn lemma_oldest_from(cs: Seq<CommandV>, k: int, best: Option<int>)
    requires
        0 <= k,
        best matches Some(b) ==> 0 <= b < cs.len() && is_recent(cs[b]),
    ensures
        oldest_from(cs, k, best) matches Some(b) ==> 0 <= b < cs.len() && is_recent(cs[b]),
        best is Some ==> oldest_from(cs, k, best) is Some,
    decreases cs.len() - k,
{
    if k < cs.len() {
        let better = is_recent(cs[k]) && match best {
            None => true,
            Some(b) => cs[k].last_used.unwrap() < cs[b].last_used.unwrap(),
        };
        lemma_oldest_from(cs, k + 1, if better { Some(k) } else { best });
    }
}

/// Some command counts as recent when the count is positive.
pub proof fn lemma_oldest_exists(cs: Seq<CommandV>)
    requires
        recent_count(cs) > 0,
    ensures
        oldest_recent(cs) matches Some(b) && 0 <= b < cs.len() && is_recent(cs[b]),
{
    broadcast use Seq::lemma_filter_pred;
    let p = recent_pred();
    let f = cs.filter(p);
    assert(p(f[0]));
    #[allow(deprecated)]
    cs.filter_lemma(p);
    let w = f[0];
    assert(f.contains(w));
    let k = lemma_contains_in_filter(cs, p, w);
    lemma_oldest_scan(cs, 0, None, k);
}

/// An element of a filtered sequence is an element of the sequence.
proof fn lemma_contains_in_filter(cs: Seq<CommandV>, p: spec_fn(CommandV) -> bool, w: CommandV) -> (k: int)
    requires
        cs.filter(p).contains(w),
        p(w),
    ensures
        0 <= k < cs.len(),
        cs[k] == w,
    decreases cs.len(),
{
    reveal(Seq::filter);
    if cs.len() == 0 {
        assert(false);
        0
    } else if cs.last() == w {
        cs.len() - 1
    } else {
        let d = cs.drop_last();
        if p(cs.last()) {
            let f = d.filter(p).push(cs.last());
            let j = choose|j: int| 0 <= j < f.len() && f[j] == w;
            assert(j < d.filter(p).len());
            assert(d.filter(p)[j] == w);
        }
        let k = lemma_contains_in_filter(d, p, w);
        k
    }
}

/// When a recent command lies at or after `k`, the scan finds one.
proof fn lemma_oldest_scan(cs: Seq<CommandV>, k: int, best: Option<int>, w: int)
    requires
        0 <= k <= w < cs.len(),
        is_recent(cs[w]),
        best matches Some(b) ==> 0 <= b < cs.len() && is_recent(cs[b]),
    ensures
        oldest_from(cs, k, best) matches Some(b) && 0 <= b < cs.len() && is_recent(cs[b]),
    decreases cs.len() - k,
{
    let better = is_recent(cs[k]) && match best {
        None => true,
        Some(b) => cs[k].last_used.unwrap() < cs[b].last_used.unwrap(),
    };
    let nb = if better { Some(k) } else { best };
    if k == w {
        lemma_oldest_from(cs, k + 1, nb);
    } else {
        lemma_oldest_scan(cs, k + 1, nb, w);
    }
}

fn oldest_recent_index(commands: &Vec<Command>) -> (r: Option<usize>)
    ensures
        opt_idx(r) == oldest_recent(commands_view(commands@)),
{
    let ghost cs = commands_view(commands@);
    let mut best: Option<usize> = None;
    let mut k: usize = 0;
    while k < commands.len()
        invariant
            k <= commands@.len(),
            cs == commands_view(commands@),
            best matches Some(b) ==> b < k && is_recent(cs[b as int]),
            oldest_recent(cs) == oldest_from(cs, k as int, opt_idx(best)),
        decreases commands@.len() - k,
    {
        let c = &commands[k];
        if !c.pinned {
            if let Some(t) = c.last_used {
                let better = match best {
                    None => true,
                    Some(b) => match commands[b].last_used {
                        Some(tb) => t < tb,
                        None => false,
                    },
                };
                if better {
                    best = Some(k);
                }
            }
        }
        k = k + 1;
    }
    best
}

impl AppState {
    /// Records a run of `cmd` at `now_secs` in the catalogue (see
    /// `record_recent_spec`).
    pub fn record_recent_command(&mut self, cmd: &str, now_secs: u64)
        requires
            first_index(old(self)@.commands, command_text_is(cmd@), 0) is None ==> old(self).next_id < u64::MAX,
        ensures
            final(self)@ == record_recent_spec(old(self)@, cmd@, now_secs),
            first_index(old(self)@.commands, command_text_is(cmd@), 0) is None && recent_count(old(self)@.commands)
                <= max_recent() ==> recent_count(final(self)@.commands) <= max_recent(),
    {
        let ghost st = self@;
        if let Some(k) = find_command_text(&self.commands, cmd) {
            self.commands[k].last_used = Some(now_secs);
            let u = self.commands[k].uses;
            self.commands[k].uses = if u == u32::MAX {
                u32::MAX
            } else {
                u + 1
            };
            assert(commands_view(self.commands@) =~= record_recent_spec(st, cmd@, now_secs).commands);
            return;
        }
        let id = self.fresh_id('c');
        self.commands.push(
            Command { id, cmd: cmd.to_owned(), desc: None, pinned: false, uses: 1, last_used: Some(now_secs) },
        );
        let ghost cs = commands_view(self.commands@);
        assert(cs =~= st.commands.push(
            CommandV { id: id_text('c', st.next_id), cmd: cmd@, desc: None, pinned: false, uses: 1, last_used: Some(now_secs) },
        ));
        proof {
            lemma_filter_push(st.commands, recent_pred(), cs.last());
            assert(st.commands.push(cs.last()) =~= cs);
        }
        let mut recent: usize = 0;
        let mut j: usize = 0;
        while j < self.commands.len()
            invariant
                j <= self.commands@.len(),
                cs == commands_view(self.commands@),
                recent == cs.take(j as int).filter(recent_pred()).len(),
                recent <= j,
            decreases self.commands@.len() - j,
        {
            proof {
                lemma_filter_push(cs.take(j as int), recent_pred(), cs[j as int]);
                assert(cs.take(j + 1) =~= cs.take(j as int).push(cs[j as int]));
            }
            if !self.commands[j].pinned && self.commands[j].last_used.is_some() {
                recent = recent + 1;
            }
            j = j + 1;
        }
        assert(cs.take(j as int) =~= cs);
        if recent > 30 {
            let idx = oldest_recent_index(&self.commands);
            proof {
                lemma_oldest_exists(cs);
            }
            if let Some(i) = idx {
                self.commands.remove(i);
                assert(commands_view(self.commands@) =~= cs.remove(i as int));
                proof {
                    lemma_remove_recent(cs, i as int);
                }
            }
        }
    }

    /// Submits the input line of the active session at the current time
    /// (see `submit_spec`); `now_hhmm` is the time shown on the block.
    pub fn submit_input(&mut self, now_hhmm: String)
        requires
            ids_available(old(self)@, 2),
        ensures
            exists|now: u64| final(self)@ == submit_spec(old(self)@, now_hhmm@, now),
    {
        let now = crate::clock::now_unix();
        self.submit_input_at(now_hhmm, now);
    }

    /// Submits the input line of the active session at `now_secs` (see
    /// `submit_spec`).
    pub fn submit_input_at(&mut self, now_hhmm: String, now_secs: u64)
        requires
            ids_available(old(self)@, 2),
        ensures
            final(self)@ == submit_spec(old(self)@, now_hhmm@, now_secs),
    {
        let ghost st = self@;
        if let Some(i) = self.active_position() {
            if self.sessions[i].shell_exited {
                return;
            }
        }
        let block_id = self.fresh_id('b');
        let ghost s1 = self@;
        let i = match self.active_position() {
            None => return,
            Some(i) => i,
        };
        let cmd = trimmed(self.sessions[i].input_buffer.as_str());
        if cmd.as_str().is_empty() {
            return;
        }
        let id = self.sessions[i].id.clone();
        let pwd = self.sessions[i].pwd.clone();
        self.sessions[i].input_buffer = String::new();
        self.sessions[i].history_cursor = None;
        let n = self.sessions[i].history.len();
        let dup = n > 0 && str_eq(self.sessions[i].history[n - 1].as_str(), cmd.as_str());
        if !dup {
            self.sessions[i].history.push(cmd.clone());
        }
        close_running(&mut self.sessions[i].blocks);
        self.sessions[i].blocks.push(
            Block {
                id: block_id,
                cmd: cmd.clone(),
                pwd,
                time: now_hhmm,
                started_at_unix: now_secs,
                running: true,
                exit_code: None,
                output: Vec::new(),
            },
        );
        self.sessions[i].status = SessionStatus::Busy;
        let ghost sv = s1.sessions[i as int];
        let ghost s_new = SessionV {
            input_buffer: Seq::empty(),
            history_cursor: None,
            history: history_push(sv.history, cmd@),
            blocks: close_all(sv.blocks).push(submitted_block(id_text('b', st.next_id), cmd@, sv.pwd, now_hhmm@, now_secs)),
            status: SessionStatus::Busy,
            ..sv
        };
        assert(self@.sessions[i as int].history =~= s_new.history);
        assert(self@.sessions[i as int].blocks[self@.sessions[i as int].blocks.len() - 1].output =~= Seq::<crate::state::SpanV>::empty());
        assert(self@.sessions[i as int].blocks =~= s_new.blocks);
        assert(self@.sessions =~= s1.sessions.update(i as int, s_new));
        let mut bytes: Vec<u8> = slice_to_vec(cmd.as_str().as_bytes());
        bytes.push(10u8);
        self.pending.push(PendingPty::Send { id, bytes });
        assert(self@.pending =~= s1.pending.push(PendingV::Send { id: sv.id, bytes: encode_utf8(cmd@).push(10u8) }));
        self.record_recent_command(cmd.as_str(), now_secs);
    }
}

impl AppState {
    /// Enter on the input line: while the active session's newest block
    /// runs, the line goes to that program's stdin; otherwise it is submitted
    /// as a new command at `now_secs`.
    pub fn submit_line(&mut self, now_hhmm: String, now_secs: u64)
        requires
            !has_running_spec(old(self)@) ==> ids_available(old(self)@, 2),
        ensures
            final(self)@ == if has_running_spec(old(self)@) {
                stdin_spec(old(self)@)
            } else {
                submit_spec(old(self)@, now_hhmm@, now_secs)
            },
    {
        if has_running(self) {
            self.submit_input_as_stdin();
        } else {
            self.submit_input_at(now_hhmm, now_secs);
        }
    }
}

// ---------------------------------------------------------------- shell life cycle and catalogue

/// `mark_session_exited`: the session goes idle, its shell counts as exited,
/// and no block of it runs any more.
pub open spec fn mark_exited_spec(st: AppV, id: Seq<char>) -> AppV {
    match find_session(st.sessions, id) {
        Some(i) => {
            let s = st.sessions[i];
            AppV {
                sessions: st.sessions.update(
                    i,
                    SessionV { status: SessionStatus::Idle, shell_exited: true, blocks: close_all(s.blocks), ..s },
                ),
                ..st
            }
        },
        None => st,
    }
}

/// `restart_session`: the session is live again and its shell is queued to
/// start in its real working directory, else in its display path.
pub open spec fn restart_spec(st: AppV, id: Seq<char>) -> AppV {
    match find_session(st.sessions, id) {
        Some(i) => {
            let s = st.sessions[i];
            let cwd = match s.cwd {
                Some(c) => c,
                None => s.pwd,
            };
            AppV {
                sessions: st.sessions.update(i, SessionV { shell_exited: false, status: SessionStatus::Live, ..s }),
                pending: st.pending.push(PendingV::Spawn { id, cwd }),
                ..st
            }
        },
        None => st,
    }
}

/// `toggle_command_pin`.
pub open spec fn toggle_pin_spec(st: AppV, id: Seq<char>) -> AppV {
    match find_command(st.commands, id) {
        Some(k) => AppV {
            commands: st.commands.update(k, CommandV { pinned: !st.commands[k].pinned, ..st.commands[k] }),
            ..st
        },
        None => st,
    }
}

/// `insert_command`: the command's text replaces the active input line; the
/// result is the label of the toast that reports it.
pub open spec fn insert_command_spec(st: AppV, id: Seq<char>) -> (AppV, Option<Seq<char>>) {
    match find_command(st.commands, id) {
        None => (st, None),
        Some(k) => {
            let text = st.commands[k].cmd;
            let s1 = match active_index(st) {
                Some(i) => AppV {
                    sessions: st.sessions.update(
                        i,
                        SessionV { input_buffer: text, history_cursor: None, ..st.sessions[i] },
                    ),
                    ..st
                },
                None => st,
            };
            (s1, Some("Inserted "@ + text))
        },
    }
}

impl AppState {
    /// Whether the session shows the alternate screen.
    pub fn is_alt_screen(&self, id: &str) -> (r: bool)
        ensures
            r == (match find_session(self@.sessions, id@) {
                Some(i) => self@.sessions[i].alt_screen,
                None => false,
            }),
    {
        match find_session_index(&self.sessions, id) {
            Some(i) => self.sessions[i].alt_screen,
            None => false,
        }
    }

    /// The session's shell has exited: it goes idle and its running block
    /// closes; input is refused until a restart.
    pub fn mark_session_exited(&mut self, id: &str)
        ensures
            final(self)@ == mark_exited_spec(old(self)@, id@),
    {
        let ghost st = self@;
        if let Some(i) = find_session_index(&self.sessions, id) {
            self.sessions[i].status = SessionStatus::Idle;
            self.sessions[i].shell_exited = true;
            close_running(&mut self.sessions[i].blocks);
            assert(self@.sessions =~= mark_exited_spec(st, id@).sessions);
        }
    }

    /// Restarts an exited shell: the session is live again and a start of
    /// its shell is queued.
    pub fn restart_session(&mut self, id: &str)
        ensures
            final(self)@ == restart_spec(old(self)@, id@),
    {
        let ghost st = self@;
        if let Some(i) = find_session_index(&self.sessions, id) {
            self.sessions[i].shell_exited = false;
            self.sessions[i].status = SessionStatus::Live;
            let cwd = match &self.sessions[i].cwd {
                Some(c) => c.clone(),
                None => self.sessions[i].pwd.clone(),
            };
            self.pending.push(PendingPty::Spawn { id: id.to_owned(), cwd });
            assert(self@.sessions =~= restart_spec(st, id@).sessions);
            assert(self@.pending =~= restart_spec(st, id@).pending);
        }
    }

    /// Flips the pin of the command.
    pub fn toggle_command_pin(&mut self, cmd_id: &str)
        ensures
            final(self)@ == toggle_pin_spec(old(self)@, cmd_id@),
    {
        let ghost st = self@;
        if let Some(k) = find_command_index(&self.commands, cmd_id) {
            self.commands[k].pinned = !self.commands[k].pinned;
            assert(self@.commands =~= toggle_pin_spec(st, cmd_id@).commands);
        }
    }

    /// Switches the shell of the input line between zsh and bash.
    pub fn toggle_shell(&mut self)
        ensures
            final(self)@ == (AppV { ui: UiV { shell: old(self)@.ui.shell.toggled_spec(), ..old(self)@.ui }, ..old(self)@ }),
    {
        self.ui.shell = self.ui.shell.toggled();
    }

    /// Puts the command's text into the active input line, replacing what
    /// was typed. Returns the label of the toast that reports it.
    pub fn insert_command(&mut self, cmd_id: &str) -> (r: Option<String>)
        ensures
            (final(self)@, opt_str(r)) == insert_command_spec(old(self)@, cmd_id@),
    {
        let ghost st = self@;
        let k = match find_command_index(&self.commands, cmd_id) {
            None => return None,
            Some(k) => k,
        };
        let text = self.commands[k].cmd.clone();
        if let Some(i) = self.active_position() {
            self.sessions[i].input_buffer = text.clone();
            self.sessions[i].history_cursor = None;
            assert(self@.sessions =~= insert_command_spec(st, cmd_id@).0.sessions);
        }
        let mut label = String::from_str("Inserted ");
        label.append(text.as_str());
        Some(label)
    }
}

impl AppState {
    /// The active session, for changing it in place.
    pub fn active_mut(&mut self) -> (r: Option<&mut Session>)
        ensures
            match active_index(old(self)@) {
                Some(i) => {
                    &&& r is Some
                    &&& (*r.unwrap())@ == old(self)@.sessions[i]
                    &&& final(self).sessions@ == old(self).sessions@.update(i, *final(r.unwrap()))
                    &&& final(self).shelf == old(self).shelf
                    &&& final(self).commands == old(self).commands
                    &&& final(self).ui == old(self).ui
                    &&& final(self).next_id == old(self).next_id
                    &&& final(self).pending == old(self).pending
                    &&& final(self).home == old(self).home
                },
                None => r is None && final(self)@ == old(self)@,
            },
    {
        match self.active_position() {
            Some(i) => Some(&mut self.sessions[i]),
            None => None,
        }
    }
}

// ---------------------------------------------------------------- laws
/// The one input on which recording can grow the recent commands past
/// `max_recent`: the command is already in the catalogue, unpinned and never
/// run, while `max_recent` or more are recent (it joins them).
pub open spec fn recent_cap_exception(st: AppV, cmd: Seq<char>) -> bool {
    match first_index(st.commands, command_text_is(cmd), 0) {
        Some(k) => !st.commands[k].pinned && st.commands[k].last_used is None && recent_count(st.commands) >= max_recent(),
        None => false,
    }
}

/// Recording a run keeps the recent commands at most at the larger of their
/// number before and `max_recent`, and never drops a pinned command: each
/// one is still there, with its id, pinned.
pub proof fn law_recent_cap(st: AppV, cmd: Seq<char>, now: u64)
    requires
        !recent_cap_exception(st, cmd),
    ensures
        recent_count(record_recent_spec(st, cmd, now).commands) <= if recent_count(st.commands) > max_recent() {
            recent_count(st.commands)
        } else {
            max_recent()
        },
        forall|k: int|
            0 <= k < st.commands.len() && #[trigger] st.commands[k].pinned ==> exists|j: int|
                0 <= j < record_recent_spec(st, cmd, now).commands.len()
                    && (#[trigger] record_recent_spec(st, cmd, now).commands[j]).id == st.commands[k].id
                    && record_recent_spec(st, cmd, now).commands[j].pinned,
{
    let after = record_recent_spec(st, cmd, now).commands;
    match first_index(st.commands, command_text_is(cmd), 0) {
        Some(k) => {
            lemma_first_index(st.commands, command_text_is(cmd), 0);
            let c = st.commands[k];
            let uses = if c.uses == u32::MAX {
                u32::MAX
            } else {
                (c.uses + 1) as u32
            };
            let x = CommandV { last_used: Some(now), uses, ..c };
            lemma_update_recent(st.commands, k, x);
            assert(after == st.commands.update(k, x));
            assert forall|q: int| 0 <= q < st.commands.len() && #[trigger] st.commands[q].pinned implies exists|j: int|
                0 <= j < after.len() && (#[trigger] after[j]).id == st.commands[q].id && after[j].pinned by {
                assert(after[q].id == st.commands[q].id && after[q].pinned);
            }
        },
        None => {
            let nc = CommandV {
                id: id_text('c', st.next_id),
                cmd,
                desc: None,
                pinned: false,
                uses: 1,
                last_used: Some(now),
            };
            let cs = st.commands.push(nc);
            lemma_filter_push(st.commands, recent_pred(), nc);
            assert(recent_count(cs) == recent_count(st.commands) + 1);
            if recent_count(cs) > max_recent() {
                lemma_oldest_exists(cs);
                let i = oldest_recent(cs).unwrap();
                lemma_remove_recent(cs, i);
                assert(after == cs.remove(i));
                assert forall|q: int| 0 <= q < st.commands.len() && #[trigger] st.commands[q].pinned implies exists|j: int|
                    0 <= j < after.len() && (#[trigger] after[j]).id == st.commands[q].id && after[j].pinned by {
                    assert(cs[q] == st.commands[q]);
                    assert(q != i);
                    if q < i {
                        assert(after[q] == cs[q]);
                    } else {
                        assert(after[q - 1] == cs[q]);
                    }
                }
            } else {
                assert(after == cs);
                assert forall|q: int| 0 <= q < st.commands.len() && #[trigger] st.commands[q].pinned implies exists|j: int|
                    0 <= j < after.len() && (#[trigger] after[j]).id == st.commands[q].id && after[j].pinned by {
                    assert(after[q] == st.commands[q]);
                }
            }
        },
    }
}

/// A non-blank submission leaves the active session on a fresh line: the
/// input is empty, the history cursor is cleared, the command (trimmed) is
/// the newest history entry and the running newest block, and the next step
/// up through the history shows that command again.
pub proof fn law_submit_fresh_line(st: AppV, time: Seq<char>, now: u64)
    requires
        active_index(st) is Some,
        !active_exited(st),
        trim(st.sessions[active_index(st)->0].input_buffer).len() > 0,
    ensures
        ({
            let i = active_index(st)->0;
            let cmd = trim(st.sessions[i].input_buffer);
            let s = submit_spec(st, time, now).sessions[i];
            &&& s.history_cursor is None
            &&& s.input_buffer.len() == 0
            &&& s.history.len() > 0 && s.history.last() == cmd
            &&& s.blocks.len() > 0 && s.blocks.last().cmd == cmd && s.blocks.last().running
            &&& step_spec(submit_spec(st, time, now), -1i32).sessions[i].input_buffer == cmd
        }),
{
    let i = active_index(st)->0;
    lemma_first_index(st.sessions, session_is(st.ui.active->0), 0);
    assert(0 <= i < st.sessions.len());
    let r = submit_spec(st, time, now);
    let s1 = AppV { next_id: (st.next_id + 1) as u64, ..st };
    assert(active_index(s1) == active_index(st));
    let sv = s1.sessions[i];
    let cmd = trim(sv.input_buffer);
    let s_new = SessionV {
        input_buffer: Seq::empty(),
        history_cursor: None,
        history: history_push(sv.history, cmd),
        blocks: close_all(sv.blocks).push(submitted_block(id_text('b', st.next_id), cmd, sv.pwd, time, now)),
        status: SessionStatus::Busy,
        ..sv
    };
    let s2 = AppV {
        sessions: s1.sessions.update(i, s_new),
        pending: s1.pending.push(PendingV::Send { id: sv.id, bytes: encode_utf8(cmd).push(10u8) }),
        ..s1
    };
    assert(r == record_recent_spec(s2, cmd, now));
    assert(r.sessions == s2.sessions);
    assert(r.ui == st.ui);
    assert forall|j: int| 0 <= j < st.sessions.len() implies (#[trigger] st.sessions[j]).id == r.sessions[j].id by {
        if j != i {
            assert(r.sessions[j] == st.sessions[j]);
        }
    }
    crate::state::output::lemma_find_same_ids(st.sessions, r.sessions, st.ui.active->0);
    assert(r.ui.active == st.ui.active);
    assert(active_index(r) == active_index(st));
    assert(r.sessions[i].history_cursor is None);
}

/// Once the active session's shell has exited, input goes nowhere: a
/// submission and a send to stdin change nothing (no block, no request).
pub proof fn law_exited_shell_takes_no_input(st: AppV, time: Seq<char>, now: u64)
    requires
        active_exited(st),
    ensures
        submit_spec(st, time, now) == st,
        stdin_spec(st) == st,
        forall|bytes: Seq<u8>| #[trigger] send_raw_spec(st, bytes) == st,
{
    let i = active_index(st).unwrap();
    lemma_first_index(st.sessions, session_is(st.ui.active.unwrap()), 0);
    assert forall|bytes: Seq<u8>| #[trigger] send_raw_spec(st, bytes) == st by {
        assert(st.sessions[i].id == st.ui.active.unwrap());
        assert(exited_with_id(st.sessions, st.ui.active.unwrap()));
    }
}

/// Ids taken from the counter never repeat: different counter values give
/// different ids.
pub proof fn law_ids_distinct(prefix: char, n: u64, m: u64)
    requires
        n != m,
    ensures
        id_text(prefix, n) != id_text(prefix, m),
{
    if id_text(prefix, n) == id_text(prefix, m) {
        assert(decimal(n as nat) =~= id_text(prefix, n).drop_first());
        assert(decimal(m as nat) =~= id_text(prefix, m).drop_first());
        crate::num::lemma_decimal_injective(n as nat, m as nat);
    }
}


/// No entry of a history repeats the one before it.
pub open spec fn no_adjacent_repeats(h: Seq<Seq<char>>) -> bool {
    forall|k: int| 0 < k < h.len() ==> #[trigger] h[k] != h[k - 1]
}

/// Submitting never makes a history entry repeat the one before it: a
/// command run twice in a row is kept once.
pub proof fn law_history_no_repeats(st: AppV, time: Seq<char>, now: u64, i: int)
    requires
        0 <= i < st.sessions.len(),
        no_adjacent_repeats(st.sessions[i].history),
    ensures
        no_adjacent_repeats(submit_spec(st, time, now).sessions[i].history),
{
    if !active_exited(st) {
        let s1 = AppV { next_id: (st.next_id + 1) as u64, ..st };
        match active_index(s1) {
            Some(j) => {
                lemma_first_index(st.sessions, session_is(st.ui.active.unwrap()), 0);
                let s = s1.sessions[j];
                let h = s.history;
                let cmd = trim(s.input_buffer);
                if cmd.len() > 0 {
                    let block_id = id_text('b', st.next_id);
                    let s_new = SessionV {
                        input_buffer: Seq::empty(),
                        history_cursor: None,
                        history: history_push(s.history, cmd),
                        blocks: close_all(s.blocks).push(submitted_block(block_id, cmd, s.pwd, time, now)),
                        status: SessionStatus::Busy,
                        ..s
                    };
                    let s2 = AppV {
                        sessions: s1.sessions.update(j, s_new),
                        pending: s1.pending.push(PendingV::Send { id: s.id, bytes: encode_utf8(cmd).push(10u8) }),
                        ..s1
                    };
                    assert(record_recent_spec(s2, cmd, now).sessions == s2.sessions);
                    if j == i {
                        let h2 = history_push(h, cmd);
                        assert forall|k: int| 0 < k < h2.len() implies #[trigger] h2[k] != h2[k - 1] by {
                            if k < h.len() {
                                assert(h2[k] == h[k] && h2[k - 1] == h[k - 1]);
                            }
                        }
                    }
                }
            },
            None => {},
        }
    }
}

/// Some element satisfying `p` means `first_index` finds one.
pub proof fn lemma_first_found<T>(s: Seq<T>, p: spec_fn(T) -> bool, k: int)
    requires
        0 <= k < s.len(),
        p(s[k]),
    ensures
        first_index(s, p, 0) is Some,
{
    lemma_first_index(s, p, 0);
}

/// Closing a session never leaves the active id dangling: when the active
/// id named a session before, it names one after (a neighbour takes over
/// when the active session itself was closed).
pub proof fn law_close_keeps_active(st: AppV, id: Seq<char>)
    requires
        active_index(st) is Some,
    ensures
        active_index(close_spec(st, id).0) is Some,
{
    let a = st.ui.active.unwrap();
    lemma_first_index(st.sessions, session_is(a), 0);
    if st.sessions.len() > 1 {
        match find_session(st.sessions, id) {
            None => {},
            Some(pos) => {
                lemma_first_index(st.sessions, session_is(id), 0);
                let rest = st.sessions.remove(pos);
                if st.ui.active == Some(id) {
                    if pos < rest.len() {
                        lemma_first_found(rest, session_is(rest[pos].id), pos);
                    } else {
                        lemma_first_found(rest, session_is(rest.last().id), rest.len() - 1);
                    }
                } else {
                    let j = find_session(st.sessions, a).unwrap();
                    assert(j != pos);
                    let k = if j < pos {
                        j
                    } else {
                        j - 1
                    };
                    assert(rest[k] == st.sessions[j]);
                    lemma_first_found(rest, session_is(a), k);
                }
            },
        }
    }
}

} // verus!
