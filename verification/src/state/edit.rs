//! Inline renaming, the form that adds a command, and the shelf.
use vstd::prelude::*;
use crate::state::model::{
    AppState, AppV, Command, CommandV, RenameTarget, RenameV, SessionV, ShelfItem, ShelfV, UiV,
    commands_view, sessions_view, shelf_view,
};
use crate::state::ops::{
    active_index, find_command, find_command_index, find_session, find_session_index, find_shelf,
    find_shelf_index, id_text, lemma_filter_push,
};
use crate::text::{
    chars_of, lemma_rfind, rfind_in, rfind_spec, str_eq, string_of, strip_pred, trim, trim_end_by,
    trim_end_len, trimmed,
};

verus! {

/// The UI with no rename open.
pub open spec fn rename_closed(ui: UiV) -> UiV {
    UiV { rename_target: None, rename_buffer: Seq::empty(), rename_focus_pending: false, ..ui }
}

/// `cancel_rename`.
pub open spec fn cancel_rename_spec(st: AppV) -> AppV {
    AppV { ui: rename_closed(st.ui), ..st }
}

/// Gives the target the new name.
pub open spec fn rename_apply(st: AppV, t: RenameV, name: Seq<char>) -> AppV {
    match t {
        RenameV::Session(id) => match find_session(st.sessions, id) {
            Some(i) => AppV {
                sessions: st.sessions.update(i, SessionV { name, ..st.sessions[i] }),
                ..st
            },
            None => st,
        },
        RenameV::Shelf(id) => match find_shelf(st.shelf, id) {
            Some(i) => AppV { shelf: st.shelf.update(i, ShelfV { label: name, ..st.shelf[i] }), ..st },
            None => st,
        },
        RenameV::Command(id) => match find_command(st.commands, id) {
            Some(i) => AppV {
                commands: st.commands.update(i, CommandV { cmd: name, ..st.commands[i] }),
                ..st
            },
            None => st,
        },
    }
}

/// `commit_rename`: the rename closes; its trimmed buffer becomes the new
/// name unless it is empty.
pub open spec fn commit_rename_spec(st: AppV) -> AppV {
    match st.ui.rename_target {
        None => st,
        Some(t) => {
            let name = trim(st.ui.rename_buffer);
            let s1 = AppV { ui: rename_closed(st.ui), ..st };
            if name.len() == 0 {
                s1
            } else {
                rename_apply(s1, t, name)
            }
        },
    }
}

/// Opens a rename of `t`, starting from `name`.
pub open spec fn rename_open(st: AppV, t: RenameV, name: Seq<char>) -> AppV {
    AppV {
        ui: UiV { rename_target: Some(t), rename_buffer: name, rename_focus_pending: true, ..st.ui },
        ..st
    }
}

/// `start_session_rename`.
pub open spec fn start_session_rename_spec(st: AppV, id: Seq<char>) -> AppV {
    match find_session(st.sessions, id) {
        Some(i) => rename_open(st, RenameV::Session(id), st.sessions[i].name),
        None => st,
    }
}

/// `start_shelf_rename`.
pub open spec fn start_shelf_rename_spec(st: AppV, id: Seq<char>) -> AppV {
    match find_shelf(st.shelf, id) {
        Some(i) => rename_open(st, RenameV::Shelf(id), st.shelf[i].label),
        None => st,
    }
}

/// `start_command_rename`.
pub open spec fn start_command_rename_spec(st: AppV, id: Seq<char>) -> AppV {
    match find_command(st.commands, id) {
        Some(i) => rename_open(st, RenameV::Command(id), st.commands[i].cmd),
        None => st,
    }
}

/// `start_command_add`: an open rename is committed, then the form opens
/// empty.
pub open spec fn start_command_add_spec(st: AppV) -> AppV {
    let s1 = if st.ui.rename_target is Some {
        commit_rename_spec(st)
    } else {
        st
    };
    AppV {
        ui: UiV {
            command_add_active: true,
            command_add_cmd: Seq::empty(),
            command_add_desc: Seq::empty(),
            command_add_focus_pending: true,
            ..s1.ui
        },
        ..s1
    }
}

/// The UI with the command form closed and empty.
pub open spec fn form_closed(ui: UiV) -> UiV {
    UiV {
        command_add_active: false,
        command_add_cmd: Seq::empty(),
        command_add_desc: Seq::empty(),
        command_add_focus_pending: false,
        ..ui
    }
}

/// `commit_command_add`: the form closes; a non-empty (trimmed) command is
/// added as a pinned entry, with its trimmed description unless empty.
pub open spec fn commit_command_add_spec(st: AppV) -> AppV {
    let cmd = trim(st.ui.command_add_cmd);
    let desc = trim(st.ui.command_add_desc);
    let s1 = AppV { ui: form_closed(st.ui), ..st };
    if cmd.len() == 0 {
        s1
    } else {
        AppV {
            commands: s1.commands.push(
                CommandV {
                    id: id_text('c', st.next_id),
                    cmd,
                    desc: if desc.len() == 0 {
                        None
                    } else {
                        Some(desc)
                    },
                    pinned: true,
                    uses: 0,
                    last_used: None,
                },
            ),
            next_id: (st.next_id + 1) as u64,
            ..s1
        }
    }
}

/// `remove_shelf`: every item with the id goes; a rename of it is cancelled.
pub open spec fn remove_shelf_spec(st: AppV, id: Seq<char>) -> AppV {
    let s1 = if st.ui.rename_target == Some(RenameV::Shelf(id)) {
        cancel_rename_spec(st)
    } else {
        st
    };
    AppV { shelf: s1.shelf.filter(|s: ShelfV| s.id != id), ..s1 }
}

impl AppState {
    /// Whether the session is being renamed.
    pub fn is_renaming_session(&self, id: &str) -> (r: bool)
        ensures
            r == (self@.ui.rename_target == Some(RenameV::Session(id@))),
    {
        match &self.ui.rename_target {
            Some(RenameTarget::Session(s)) => str_eq(s.as_str(), id),
            _ => false,
        }
    }

    /// Whether the shelf item is being renamed.
    pub fn is_renaming_shelf(&self, id: &str) -> (r: bool)
        ensures
            r == (self@.ui.rename_target == Some(RenameV::Shelf(id@))),
    {
        match &self.ui.rename_target {
            Some(RenameTarget::Shelf(s)) => str_eq(s.as_str(), id),
            _ => false,
        }
    }

    /// Whether the command's text is being edited.
    pub fn is_renaming_command(&self, id: &str) -> (r: bool)
        ensures
            r == (self@.ui.rename_target == Some(RenameV::Command(id@))),
    {
        match &self.ui.rename_target {
            Some(RenameTarget::Command(s)) => str_eq(s.as_str(), id),
            _ => false,
        }
    }

    /// Drops an open rename.
    pub fn cancel_rename(&mut self)
        ensures
            final(self)@ == cancel_rename_spec(old(self)@),
    {
        self.ui.rename_target = None;
        self.ui.rename_buffer = String::new();
        self.ui.rename_focus_pending = false;
    }

    /// Commits an open rename: its trimmed buffer becomes the new name of the
    /// session, the shelf label or the command text; an empty one changes
    /// nothing but closes the rename.
    pub fn commit_rename(&mut self)
        ensures
            final(self)@ == commit_rename_spec(old(self)@),
    {
        let ghost st = self@;
        let target = match self.ui.rename_target.take() {
            None => return,
            Some(t) => t,
        };
        let mut buf = String::new();
        std::mem::swap(&mut buf, &mut self.ui.rename_buffer);
        self.ui.rename_focus_pending = false;
        let name = trimmed(buf.as_str());
        let ghost s1 = self@;
        assert(s1 == (AppV { ui: rename_closed(st.ui), ..st }));
        if name.as_str().is_empty() {
            return;
        }
        match target {
            RenameTarget::Session(id) => {
                if let Some(i) = find_session_index(&self.sessions, id.as_str()) {
                    self.sessions[i].name = name;
                    assert(sessions_view(self.sessions@) =~= s1.sessions.update(
                        i as int,
                        SessionV { name: trim(st.ui.rename_buffer), ..s1.sessions[i as int] },
                    ));
                }
            },
            RenameTarget::Shelf(id) => {
                if let Some(i) = find_shelf_index(&self.shelf, id.as_str()) {
                    self.shelf[i].label = name;
                    assert(shelf_view(self.shelf@) =~= s1.shelf.update(
                        i as int,
                        ShelfV { label: trim(st.ui.rename_buffer), ..s1.shelf[i as int] },
                    ));
                }
            },
            RenameTarget::Command(id) => {
                if let Some(i) = find_command_index(&self.commands, id.as_str()) {
                    self.commands[i].cmd = name;
                    assert(commands_view(self.commands@) =~= s1.commands.update(
                        i as int,
                        CommandV { cmd: trim(st.ui.rename_buffer), ..s1.commands[i as int] },
                    ));
                }
            },
        }
    }

    /// Opens an inline rename of the session.
    pub fn start_session_rename(&mut self, session_id: &str)
        ensures
            final(self)@ == start_session_rename_spec(old(self)@, session_id@),
    {
        if let Some(i) = find_session_index(&self.sessions, session_id) {
            let name = self.sessions[i].name.clone();
            self.ui.rename_target = Some(RenameTarget::Session(session_id.to_owned()));
            self.ui.rename_buffer = name;
            self.ui.rename_focus_pending = true;
        }
    }

    /// Opens an inline rename of the shelf item's label.
    pub fn start_shelf_rename(&mut self, shelf_id: &str)
        ensures
            final(self)@ == start_shelf_rename_spec(old(self)@, shelf_id@),
    {
        if let Some(i) = find_shelf_index(&self.shelf, shelf_id) {
            let label = self.shelf[i].label.clone();
            self.ui.rename_target = Some(RenameTarget::Shelf(shelf_id.to_owned()));
            self.ui.rename_buffer = label;
            self.ui.rename_focus_pending = true;
        }
    }

    /// Opens an inline edit of the command's text.
    pub fn start_command_rename(&mut self, cmd_id: &str)
        ensures
            final(self)@ == start_command_rename_spec(old(self)@, cmd_id@),
    {
        if let Some(i) = find_command_index(&self.commands, cmd_id) {
            let text = self.commands[i].cmd.clone();
            self.ui.rename_target = Some(RenameTarget::Command(cmd_id.to_owned()));
            self.ui.rename_buffer = text;
            self.ui.rename_focus_pending = true;
        }
    }

    /// Opens the form that adds a command (an open rename is committed).
    pub fn start_command_add(&mut self)
        ensures
            final(self)@ == start_command_add_spec(old(self)@),
    {
        if self.ui.rename_target.is_some() {
            self.commit_rename();
        }
        self.ui.command_add_active = true;
        self.ui.command_add_cmd = String::new();
        self.ui.command_add_desc = String::new();
        self.ui.command_add_focus_pending = true;
    }

    /// Closes the form and adds its command, pinned, unless it is empty.
    pub fn commit_command_add(&mut self)
        requires
            trim(old(self)@.ui.command_add_cmd).len() > 0 ==> old(self).next_id < u64::MAX,
        ensures
            final(self)@ == commit_command_add_spec(old(self)@),
    {
        let ghost st = self@;
        let mut cmd_buf = String::new();
        std::mem::swap(&mut cmd_buf, &mut self.ui.command_add_cmd);
        let mut desc_buf = String::new();
        std::mem::swap(&mut desc_buf, &mut self.ui.command_add_desc);
        let cmd = trimmed(cmd_buf.as_str());
        let desc = trimmed(desc_buf.as_str());
        self.ui.command_add_active = false;
        self.ui.command_add_focus_pending = false;
        if cmd.as_str().is_empty() {
            return;
        }
        let id = self.fresh_id('c');
        let desc_opt = if desc.as_str().is_empty() {
            None
        } else {
            Some(desc)
        };
        self.commands.push(Command { id, cmd, desc: desc_opt, pinned: true, uses: 0, last_used: None });
        assert(commands_view(self.commands@) =~= commit_command_add_spec(st).commands);
    }

    /// Closes the form and drops its contents.
    pub fn cancel_command_add(&mut self)
        ensures
            final(self)@ == (AppV { ui: form_closed(old(self)@.ui), ..old(self)@ }),
    {
        self.ui.command_add_active = false;
        self.ui.command_add_cmd = String::new();
        self.ui.command_add_desc = String::new();
        self.ui.command_add_focus_pending = false;
    }

    /// Removes the shelf item (every item with that id); a rename of it is
    /// cancelled.
    pub fn remove_shelf(&mut self, id: &str)
        ensures
            final(self)@ == remove_shelf_spec(old(self)@, id@),
    {
        let ghost st = self@;
        if self.is_renaming_shelf(id) {
            self.cancel_rename();
        }
        let ghost s1 = self@;
        let mut old_shelf = Vec::new();
        std::mem::swap(&mut old_shelf, &mut self.shelf);
        let ghost pred = |s: ShelfV| s.id != id@;
        let mut i: usize = 0;
        while i < old_shelf.len()
            invariant
                i <= old_shelf@.len(),
                shelf_view(old_shelf@) == s1.shelf,
                shelf_view(self.shelf@) == s1.shelf.take(i as int).filter(pred),
                (AppV { shelf: s1.shelf, ..self@ }) == s1,
                pred == (|s: ShelfV| s.id != id@),
            decreases old_shelf@.len() - i,
        {
            let keep = !str_eq(old_shelf[i].id.as_str(), id);
            let ghost before = s1.shelf.take(i as int);
            assert(s1.shelf.take(i + 1) =~= before.push(s1.shelf[i as int]));
            proof {
                lemma_filter_push(before, pred, s1.shelf[i as int]);
            }
            if keep {
                self.shelf.push(old_shelf[i].duplicate());
                assert(shelf_view(self.shelf@) =~= s1.shelf.take(i + 1).filter(pred));
            }
            i = i + 1;
        }
        assert(s1.shelf.take(i as int) =~= s1.shelf);
    }
}

/// The label for a shelf item at `path`: its last segment (trailing slashes
/// aside), or "home" for the home directory, the root or an empty path.
pub open spec fn shelf_label(path: Seq<char>) -> Seq<char> {
    let slash = strip_pred(false, '/');
    let t = trim_end_by(path, slash);
    let last = match rfind_spec(t, slash) {
        Some(k) => t.skip(k + 1),
        None => t,
    };
    if last.len() == 0 || last == "~"@ {
        "home"@
    } else {
        last
    }
}

/// `add_active_to_shelf`: the active session's path joins the shelf (tagged
/// "work"); the result is the toast's label and detail.
pub open spec fn add_to_shelf_spec(st: AppV) -> (AppV, Option<(Seq<char>, Seq<char>)>) {
    match active_index(st) {
        None => (st, None),
        Some(i) => {
            let path = st.sessions[i].pwd;
            let label = shelf_label(path);
            let item = ShelfV {
                id: id_text('f', st.next_id),
                label,
                path,
                tag: "work"@,
                remote: None,
                uses: 0,
            };
            (
                AppV { shelf: st.shelf.push(item), next_id: (st.next_id + 1) as u64, ..st },
                Some(("Added \""@ + label + "\" to shelf"@, path)),
            )
        },
    }
}

/// The label for a shelf item at `path` (see `shelf_label`).
pub fn shelf_label_of(path: &str) -> (r: String)
    ensures
        r@ == shelf_label(path@),
{
    let v = chars_of(path);
    let e = trim_end_len(v.as_slice(), '/');
    let ghost t = v@.take(e as int);
    let start = match rfind_in(v.as_slice(), e, false, '/') {
        Some(k) => k + 1,
        None => 0,
    };
    proof {
        lemma_rfind(t, strip_pred(false, '/'));
    }
    let last = string_of(&v.as_slice()[start..e]);
    assert(last@ =~= match rfind_spec(t, strip_pred(false, '/')) {
        Some(k) => t.skip(k + 1),
        None => t,
    });
    if last.as_str().is_empty() || str_eq(last.as_str(), "~") {
        String::from_str("home")
    } else {
        last
    }
}

impl AppState {
    /// Adds the active session's path to the shelf. Returns the label and
    /// the detail of the toast that reports it.
    pub fn add_active_to_shelf(&mut self) -> (r: Option<(String, String)>)
        requires
            old(self).next_id < u64::MAX,
        ensures
            final(self)@ == add_to_shelf_spec(old(self)@).0,
            match add_to_shelf_spec(old(self)@).1 {
                Some((label, detail)) => r matches Some((l, d)) && l@ == label && d@ == detail,
                None => r is None,
            },
    {
        let ghost st = self@;
        let i = match self.active_position() {
            None => return None,
            Some(i) => i,
        };
        let path = self.sessions[i].pwd.clone();
        let label = shelf_label_of(path.as_str());
        let id = self.fresh_id('f');
        self.shelf.push(
            ShelfItem {
                id,
                label: label.clone(),
                path: path.clone(),
                tag: String::from_str("work"),
                remote: None,
                uses: 0,
            },
        );
        assert(self@.shelf =~= add_to_shelf_spec(st).0.shelf);
        let mut toast = String::from_str("Added \"");
        toast.append(label.as_str());
        toast.append("\" to shelf");
        Some((toast, path))
    }
}

} // verus!
