//! Start-up, the subset of the state kept between runs, and its restoration.
use vstd::prelude::*;
use crate::config::Shell;
use crate::num::{is_digit, parse_u64_digits, parse_u64_range};
use crate::state::model::{
    AppState, AppV, Command, CommandV, PendingPty, PendingV, PersistentSession, PersistentSessionV,
    PersistentState, PersistentV, Session, SessionV, ShelfItem, ShelfV, UiState, UiV, commands_view,
    copy_commands, copy_shelf, pending_view, sessions_view, shelf_view,
};
use crate::state::ops::{find_session, find_session_index, first_index, new_session_v, new_session_value};
use crate::text::opt_str;
use crate::state::ops::active_index;
use crate::state::output::lemma_find_same_ids;
use vstd::utf8::encode_utf8;

verus! {

/// The UI at start-up: both rails shown, zsh, nothing open.
pub open spec fn default_ui() -> UiV {
    UiV {
        active: None,
        rail_left_visible: true,
        rail_right_visible: true,
        shell: Shell::Zsh,
        search_query: Seq::empty(),
        rename_target: None,
        rename_buffer: Seq::empty(),
        rename_focus_pending: false,
        command_add_active: false,
        command_add_cmd: Seq::empty(),
        command_add_desc: Seq::empty(),
        command_add_focus_pending: false,
    }
}

impl Default for UiState {
    fn default() -> (r: Self)
        ensures
            r@ == default_ui(),
    {
        UiState {
            active_session_id: None,
            rail_left_visible: true,
            rail_right_visible: true,
            shell: Shell::Zsh,
            search_query: String::new(),
            rename_target: None,
            rename_buffer: String::new(),
            rename_focus_pending: false,
            command_add_active: false,
            command_add_cmd: String::new(),
            command_add_desc: String::new(),
            command_add_focus_pending: false,
        }
    }
}

impl Default for PersistentState {
    fn default() -> (r: Self)
        ensures
            r@ == (PersistentV {
                sessions: Seq::empty(),
                active: None,
                shelf: Seq::empty(),
                commands: Seq::empty(),
                rail_left_visible: false,
                rail_right_visible: false,
                shell: Shell::Zsh,
            }),
    {
        let r = PersistentState {
            sessions: Vec::new(),
            active_session_id: None,
            shelf: Vec::new(),
            commands: Vec::new(),
            rail_left_visible: false,
            rail_right_visible: false,
            shell: Shell::Zsh,
        };
        assert(r@.sessions =~= Seq::<PersistentSessionV>::empty());
        assert(r@.shelf =~= Seq::<ShelfV>::empty());
        assert(r@.commands =~= Seq::<CommandV>::empty());
        r
    }
}

/// The first value of the id counter.
pub open spec fn first_id() -> u64 {
    100
}

// ---------------------------------------------------------------- catalogues

pub open spec fn shelf_v(id: Seq<char>, label: Seq<char>, path: Seq<char>, tag: Seq<char>, remote: Option<Seq<char>>, uses: u32) -> ShelfV {
    ShelfV { id, label, path, tag, remote, uses }
}

/// The shelf a first start begins with.
pub open spec fn seed_shelf() -> Seq<ShelfV> {
    seq![
        shelf_v("f1"@, "tanaterm"@, "~/work/tanaterm"@, "work"@, None, 142),
        shelf_v("f2"@, "api"@, "~/work/api"@, "work"@, None, 88),
        shelf_v("f3"@, "frontend-lp"@, "~/work/mitsucari/frontend-lp"@, "work"@, None, 34),
        shelf_v("f4"@, "dotfiles"@, "~/.config"@, "personal"@, None, 60),
        shelf_v("f5"@, "notes"@, "~/notes"@, "personal"@, None, 21),
        shelf_v("f6"@, "downloads"@, "~/Downloads"@, "personal"@, None, 7),
        shelf_v("f7"@, "prod logs"@, "/var/log"@, "remote"@, Some("prod-01"@), 12),
        shelf_v("f8"@, "sandbox"@, "~/tmp/sandbox"@, "work"@, None, 3),
    ]
}

/// A pinned entry of the built-in catalogue.
pub open spec fn command_v(id: Seq<char>, cmd: Seq<char>, desc: Seq<char>, uses: u32) -> CommandV {
    CommandV { id, cmd, desc: Some(desc), pinned: true, uses, last_used: None }
}

/// The built-in command catalogue: pinned entries only (recent ones come
/// from what runs).
pub open spec fn seed_commands() -> Seq<CommandV> {
    seq![
        command_v("c1"@, "df -h"@, "disk free by mount"@, 412),
        command_v("c2"@, "cd -"@, "previous directory"@, 88),
        command_v("c3"@, "ps aux | grep $name"@, "find a process"@, 54),
        command_v("c4"@, "pnpm dev"@, "start dev server"@, 201),
        command_v("c5"@, "docker compose logs -f $svc"@, "tail service logs"@, 73),
        command_v("c6"@, "kubectl get pods -A"@, "all pods, all namespaces"@, 32),
    ]
}

fn shelf_item(id: &str, label: &str, path: &str, tag: &str, remote: Option<&str>, uses: u32) -> (r: ShelfItem)
    ensures
        r@ == shelf_v(id@, label@, path@, tag@, match remote {
            Some(s) => Some(s@),
            None => None,
        }, uses),
{
    ShelfItem {
        id: id.to_owned(),
        label: label.to_owned(),
        path: path.to_owned(),
        tag: tag.to_owned(),
        remote: match remote {
            Some(s) => Some(s.to_owned()),
            None => None,
        },
        uses,
    }
}

fn command(id: &str, cmd: &str, desc: &str, uses: u32) -> (r: Command)
    ensures
        r@ == command_v(id@, cmd@, desc@, uses),
{
    Command {
        id: id.to_owned(),
        cmd: cmd.to_owned(),
        desc: Some(desc.to_owned()),
        pinned: true,
        uses,
        last_used: None,
    }
}

/// The shelf a first start begins with.
pub fn shelf() -> (r: Vec<ShelfItem>)
    ensures
        shelf_view(r@) == seed_shelf(),
{
    let r = vec![
        shelf_item("f1", "tanaterm", "~/work/tanaterm", "work", None, 142),
        shelf_item("f2", "api", "~/work/api", "work", None, 88),
        shelf_item("f3", "frontend-lp", "~/work/mitsucari/frontend-lp", "work", None, 34),
        shelf_item("f4", "dotfiles", "~/.config", "personal", None, 60),
        shelf_item("f5", "notes", "~/notes", "personal", None, 21),
        shelf_item("f6", "downloads", "~/Downloads", "personal", None, 7),
        shelf_item("f7", "prod logs", "/var/log", "remote", Some("prod-01"), 12),
        shelf_item("f8", "sandbox", "~/tmp/sandbox", "work", None, 3),
    ];
    assert(shelf_view(r@) =~= seed_shelf());
    r
}

/// The built-in command catalogue.
pub fn commands() -> (r: Vec<Command>)
    ensures
        commands_view(r@) == seed_commands(),
{
    let r = vec![
        command("c1", "df -h", "disk free by mount", 412),
        command("c2", "cd -", "previous directory", 88),
        command("c3", "ps aux | grep $name", "find a process", 54),
        command("c4", "pnpm dev", "start dev server", 201),
        command("c5", "docker compose logs -f $svc", "tail service logs", 73),
        command("c6", "kubectl get pods -A", "all pods, all namespaces", 32),
    ];
    assert(commands_view(r@) =~= seed_commands());
    r
}

// ---------------------------------------------------------------- start-up

/// The state of a first start: one empty session "s1" at home, whose shell
/// is queued to start; the built-in shelf and catalogue.
pub open spec fn boot_spec() -> AppV {
    AppV {
        sessions: seq![new_session_v("s1"@, "session"@, "~/"@)],
        shelf: seed_shelf(),
        commands: seed_commands(),
        ui: UiV { active: Some("s1"@), ..default_ui() },
        next_id: first_id(),
        pending: seq![PendingV::Spawn { id: "s1"@, cwd: "~/"@ }],
        home: None,
    }
}

// ---------------------------------------------------------------- the persistent subset

pub open spec fn persistent_session(s: SessionV) -> PersistentSessionV {
    PersistentSessionV { id: s.id, name: s.name, pwd: s.pwd, pinned: s.pinned }
}

/// `to_persistent`: what is kept of the state.
pub open spec fn to_persistent_spec(st: AppV) -> PersistentV {
    PersistentV {
        sessions: st.sessions.map_values(|s: SessionV| persistent_session(s)),
        active: st.ui.active,
        shelf: st.shelf,
        commands: st.commands,
        rail_left_visible: st.ui.rail_left_visible,
        rail_right_visible: st.ui.rail_right_visible,
        shell: st.ui.shell,
    }
}

/// The numeric suffix of an id such as "s105": the digits after the
/// leading non-digits, when they are all there is and fit in a `u64`.
pub open spec fn id_suffix(id: Seq<char>) -> Option<u64> {
    let b = encode_utf8(id);
    let k = match first_index(b, |x: u8| is_digit(x), 0) {
        Some(k) => k,
        None => b.len() as int,
    };
    parse_u64_digits(b.skip(k))
}

/// The largest suffix among the ids.
pub open spec fn max_suffix(ids: Seq<Seq<char>>) -> Option<u64>
    decreases ids.len(),
{
    if ids.len() == 0 {
        None
    } else {
        let rest = max_suffix(ids.drop_last());
        match (rest, id_suffix(ids.last())) {
            (Some(a), Some(b)) => Some(if a >= b {
                a
            } else {
                b
            }),
            (Some(a), None) => Some(a),
            (None, x) => x,
        }
    }
}

/// The catalogue restored: the kept one, or the built-in one when empty.
pub open spec fn restored_commands(p: PersistentV) -> Seq<CommandV> {
    if p.commands.len() == 0 {
        seed_commands()
    } else {
        p.commands
    }
}

/// A kept session restored: live, empty, with its name, path and pin.
pub open spec fn restored_session(ps: PersistentSessionV) -> SessionV {
    SessionV { pinned: ps.pinned, ..new_session_v(ps.id, ps.name, ps.pwd) }
}

/// The ids whose suffixes the counter must pass.
pub open spec fn restored_ids(p: PersistentV) -> Seq<Seq<char>> {
    p.sessions.map_values(|s: PersistentSessionV| s.id) + p.shelf.map_values(|s: ShelfV| s.id)
        + restored_commands(p).map_values(|c: CommandV| c.id)
}

/// The id counter after a restore: past every restored suffix, and never
/// below the first value.
pub open spec fn restored_next_id(p: PersistentV) -> u64 {
    match max_suffix(restored_ids(p)) {
        None => first_id(),
        Some(m) => if m + 1 >= first_id() {
            (m + 1) as u64
        } else {
            first_id()
        },
    }
}

/// Whether the counter can pass every restored suffix.
pub open spec fn restorable(p: PersistentV) -> bool {
    p.sessions.len() > 0 ==> max_suffix(restored_ids(p)) != Some(u64::MAX)
}

/// `from_persistent`: without kept sessions, a first start with the kept
/// shell. Otherwise the kept sessions come back empty and live with their
/// shells queued to start, the active one stays if it still exists (else
/// the first), and the id counter passes every restored id.
pub open spec fn from_persistent_spec(p: PersistentV) -> AppV {
    if p.sessions.len() == 0 {
        AppV { ui: UiV { shell: p.shell, ..boot_spec().ui }, ..boot_spec() }
    } else {
        let sessions = p.sessions.map_values(|ps: PersistentSessionV| restored_session(ps));
        let active = match p.active {
            Some(a) if find_session(sessions, a) is Some => Some(a),
            _ => Some(sessions[0].id),
        };
        AppV {
            sessions,
            shelf: p.shelf,
            commands: restored_commands(p),
            ui: UiV {
                active,
                rail_left_visible: p.rail_left_visible,
                rail_right_visible: p.rail_right_visible,
                shell: p.shell,
                ..default_ui()
            },
            next_id: restored_next_id(p),
            pending: p.sessions.map_values(|ps: PersistentSessionV| PendingV::Spawn { id: ps.id, cwd: ps.pwd }),
            home: None,
        }
    }
}

/// The suffix of one id.
fn id_suffix_of(id: &str) -> (r: Option<u64>)
    ensures
        r == id_suffix(id@),
{
    let b = id.as_bytes();
    let ghost bs = encode_utf8(id@);
    let mut k: usize = 0;
    while k < b.len() && !(0x30 <= b[k] && b[k] <= 0x39)
        invariant
            k <= b@.len(),
            b@ == bs,
            first_index(bs, |x: u8| is_digit(x), 0) == first_index(bs, |x: u8| is_digit(x), k as int),
        decreases b@.len() - k,
    {
        k = k + 1;
    }
    assert(b@.subrange(k as int, b@.len() as int) =~= bs.skip(k as int));
    parse_u64_range(b, k, b.len())
}

/// Combines a maximum so far with one more suffix.
fn max_with(acc: Option<u64>, x: Option<u64>) -> (r: Option<u64>)
    ensures
        r == (match (acc, x) {
            (Some(a), Some(b)) => Some(if a >= b {
                a
            } else {
                b
            }),
            (Some(a), None) => Some(a),
            (None, x) => x,
        }),
{
    match (acc, x) {
        (Some(a), Some(b)) => Some(if a >= b {
            a
        } else {
            b
        }),
        (Some(a), None) => Some(a),
        (None, x) => x,
    }
}

/// The largest suffix passes every suffix.
pub proof fn lemma_max_suffix(ids: Seq<Seq<char>>, j: int)
    requires
        0 <= j < ids.len(),
        id_suffix(ids[j]) is Some,
    ensures
        max_suffix(ids) matches Some(m) && m >= id_suffix(ids[j]).unwrap(),
    decreases ids.len(),
{
    if j < ids.len() - 1 {
        lemma_max_suffix(ids.drop_last(), j);
        assert(ids.drop_last()[j] == ids[j]);
    }
}

/// The largest suffix among the restored ids (see `restored_ids`), given
/// the restored catalogue.
fn max_restored_suffix(p: &PersistentState, commands: &Vec<Command>) -> (r: Option<u64>)
    requires
        commands_view(commands@) == restored_commands(p@),
    ensures
        r == max_suffix(restored_ids(p@)),
{
    let ghost pv = p@;
    let ghost ids = restored_ids(pv);
    let mut acc: Option<u64> = None;
    let mut j: usize = 0;
    let ghost ns = pv.sessions.len();
    let ghost nf = pv.shelf.len();
    let ghost nc = commands_view(commands@).len();
    assert(ids.len() == ns + nf + nc);
    assert(ids.take(0) =~= Seq::<Seq<char>>::empty());
    while j < p.sessions.len()
        invariant
            j <= p.sessions@.len(),
            pv == p@,
            ids == restored_ids(pv),
            ns == pv.sessions.len(),
            commands_view(commands@) == restored_commands(pv),
            acc == max_suffix(ids.take(j as int)),
        decreases p.sessions@.len() - j,
    {
        assert(ids[j as int] == pv.sessions[j as int].id);
        assert(ids.take(j + 1).drop_last() =~= ids.take(j as int));
        acc = max_with(acc, id_suffix_of(p.sessions[j].id.as_str()));
        j = j + 1;
    }
    let mut k: usize = 0;
    while k < p.shelf.len()
        invariant
            k <= p.shelf@.len(),
            pv == p@,
            ids == restored_ids(pv),
            ns == pv.sessions.len(),
            commands_view(commands@) == restored_commands(pv),
            acc == max_suffix(ids.take(ns + k)),
        decreases p.shelf@.len() - k,
    {
        assert(ids[ns + k] == pv.shelf[k as int].id);
        assert(ids.take(ns + k + 1).drop_last() =~= ids.take(ns + k));
        acc = max_with(acc, id_suffix_of(p.shelf[k].id.as_str()));
        k = k + 1;
    }
    let mut q: usize = 0;
    while q < commands.len()
        invariant
            q <= commands@.len(),
            pv == p@,
            ids == restored_ids(pv),
            ns == pv.sessions.len(),
            nf == pv.shelf.len(),
            commands_view(commands@) == restored_commands(pv),
            acc == max_suffix(ids.take(ns + nf + q)),
        decreases commands@.len() - q,
    {
        assert(ids[ns + nf + q] == commands_view(commands@)[q as int].id);
        assert(ids.take(ns + nf + q + 1).drop_last() =~= ids.take(ns + nf + q));
        acc = max_with(acc, id_suffix_of(commands[q].id.as_str()));
        q = q + 1;
    }
    assert(ids.take(ids.len() as int) =~= ids);
    acc
}

/// Whether `from_persistent` can restore `p` (the id counter can pass
/// every restored id).
pub fn is_restorable(p: &PersistentState) -> (r: bool)
    ensures
        r == restorable(p@),
{
    if p.sessions.len() == 0 {
        return true;
    }
    let commands = if p.commands.len() == 0 {
        commands()
    } else {
        copy_commands(&p.commands)
    };
    match max_restored_suffix(p, &commands) {
        Some(m) => m != u64::MAX,
        None => true,
    }
}

impl AppState {
    /// The state of a first start (see `boot_spec`).
    pub fn boot() -> (r: Self)
        ensures
            r@ == boot_spec(),
    {
        let id = "s1".to_owned();
        let pwd = "~/".to_owned();
        let session = new_session_value(id.clone(), "session".to_owned(), pwd.clone());
        let r = AppState {
            sessions: vec![session],
            shelf: shelf(),
            commands: commands(),
            ui: UiState { active_session_id: Some(id.clone()), ..UiState::default() },
            next_id: 100,
            pending: vec![PendingPty::Spawn { id, cwd: pwd }],
            home: None,
        };
        assert(r@.sessions =~= boot_spec().sessions);
        assert(r@.pending =~= boot_spec().pending);
        r
    }

    /// What is kept of the state between runs.
    pub fn to_persistent(&self) -> (r: PersistentState)
        ensures
            r@ == to_persistent_spec(self@),
    {
        let mut sessions: Vec<PersistentSession> = Vec::new();
        let mut i: usize = 0;
        while i < self.sessions.len()
            invariant
                i <= self.sessions@.len(),
                sessions@.len() == i,
                forall|j: int| 0 <= j < i ==> (#[trigger] sessions@[j])@ == persistent_session(self.sessions@[j]@),
            decreases self.sessions@.len() - i,
        {
            let s = &self.sessions[i];
            sessions.push(
                PersistentSession { id: s.id.clone(), name: s.name.clone(), pwd: s.pwd.clone(), pinned: s.pinned },
            );
            i = i + 1;
        }
        let r = PersistentState {
            sessions,
            active_session_id: crate::state::model::copy_opt(&self.ui.active_session_id),
            shelf: copy_shelf(&self.shelf),
            commands: copy_commands(&self.commands),
            rail_left_visible: self.ui.rail_left_visible,
            rail_right_visible: self.ui.rail_right_visible,
            shell: self.ui.shell,
        };
        assert(r@.sessions =~= to_persistent_spec(self@).sessions);
        r
    }

    /// Restores the state from what was kept (see `from_persistent_spec`).
    pub fn from_persistent(p: PersistentState) -> (r: Self)
        requires
            restorable(p@),
        ensures
            r@ == from_persistent_spec(p@),
            forall|j: int|
                0 <= j < restored_ids(p@).len() && (#[trigger] id_suffix(restored_ids(p@)[j])) is Some
                    ==> p@.sessions.len() > 0 ==> r@.next_id > id_suffix(restored_ids(p@)[j]).unwrap(),
    {
        let ghost pv = p@;
        if p.sessions.len() == 0 {
            let mut st = Self::boot();
            st.ui.shell = p.shell;
            return st;
        }
        let mut sessions: Vec<Session> = Vec::new();
        let mut pending: Vec<PendingPty> = Vec::new();
        let mut i: usize = 0;
        while i < p.sessions.len()
            invariant
                i <= p.sessions@.len(),
                pv == p@,
                sessions@.len() == i,
                pending@.len() == i,
                forall|j: int| 0 <= j < i ==> (#[trigger] sessions@[j])@ == restored_session(pv.sessions[j]),
                forall|j: int| 0 <= j < i ==> (#[trigger] pending@[j])@ == (PendingV::Spawn { id: pv.sessions[j].id, cwd: pv.sessions[j].pwd }),
            decreases p.sessions@.len() - i,
        {
            let ps = &p.sessions[i];
            let mut s = new_session_value(ps.id.clone(), ps.name.clone(), ps.pwd.clone());
            s.pinned = ps.pinned;
            sessions.push(s);
            pending.push(PendingPty::Spawn { id: ps.id.clone(), cwd: ps.pwd.clone() });
            i = i + 1;
        }
        let ghost sv = pv.sessions.map_values(|ps: PersistentSessionV| restored_session(ps));
        assert(sessions_view(sessions@) =~= sv);
        assert(pending_view(pending@) =~= pv.sessions.map_values(
            |ps: PersistentSessionV| PendingV::Spawn { id: ps.id, cwd: ps.pwd },
        ));
        let commands = if p.commands.len() == 0 {
            commands()
        } else {
            copy_commands(&p.commands)
        };
        let active = match &p.active_session_id {
            Some(a) => if find_session_index(&sessions, a.as_str()).is_some() {
                Some(a.clone())
            } else {
                Some(sessions[0].id.clone())
            },
            None => Some(sessions[0].id.clone()),
        };
        // the id counter passes every restored suffix
        let ghost ids = restored_ids(pv);
        let acc = max_restored_suffix(&p, &commands);
        let next_id = match acc {
            None => 100,
            Some(m) => if m + 1 >= 100 {
                m + 1
            } else {
                100
            },
        };
        let r = AppState {
            sessions,
            shelf: p.shelf,
            commands,
            ui: UiState {
                active_session_id: active,
                rail_left_visible: p.rail_left_visible,
                rail_right_visible: p.rail_right_visible,
                shell: p.shell,
                ..UiState::default()
            },
            next_id,
            pending,
            home: None,
        };
        assert forall|j: int|
            0 <= j < restored_ids(pv).len() && (#[trigger] id_suffix(restored_ids(pv)[j])) is Some implies r@.next_id
            > id_suffix(restored_ids(pv)[j]).unwrap() by {
            lemma_max_suffix(ids, j);
        }
        r
    }
}

/// What survives a save and a restore: the sessions (ids, names, paths
/// and pins, in order; their blocks do not), the shelf, the catalogue, the
/// rails, the shell, and the active session.
pub proof fn law_persist_roundtrip(st: AppV)
    requires
        st.sessions.len() > 0,
        st.commands.len() > 0,
        restorable(to_persistent_spec(st)),
    ensures
        ({
            let r = from_persistent_spec(to_persistent_spec(st));
            &&& r.sessions.len() == st.sessions.len()
            &&& forall|i: int| 0 <= i < st.sessions.len() ==> {
                &&& (#[trigger] r.sessions[i]).id == st.sessions[i].id
                &&& r.sessions[i].name == st.sessions[i].name
                &&& r.sessions[i].pwd == st.sessions[i].pwd
                &&& r.sessions[i].pinned == st.sessions[i].pinned
                &&& r.sessions[i].blocks.len() == 0
            }
            &&& r.shelf == st.shelf
            &&& r.commands == st.commands
            &&& r.ui.rail_left_visible == st.ui.rail_left_visible
            &&& r.ui.rail_right_visible == st.ui.rail_right_visible
            &&& r.ui.shell == st.ui.shell
            &&& active_index(st) is Some ==> r.ui.active == st.ui.active
        }),
{
    let p = to_persistent_spec(st);
    let r = from_persistent_spec(p);
    assert forall|j: int| 0 <= j < st.sessions.len() implies (#[trigger] st.sessions[j]).id == r.sessions[j].id by {}
    lemma_find_same_ids(st.sessions, r.sessions, match st.ui.active {
        Some(a) => a,
        None => Seq::empty(),
    });
}

} // verus!
