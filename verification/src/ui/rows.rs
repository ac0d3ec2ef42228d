//! What a click on a row of the rails does.
//!
//! A row reports what the pointer did to it in one frame (and where a click
//! landed); the change to the state, and the toast to show, are decided
//! here. A rename in progress is committed first; a row whose entry no
//! longer exists does nothing.
use vstd::prelude::*;
use crate::shortcuts::last_session_notice;
use crate::state::edit::{
    commit_rename_spec, remove_shelf_spec, start_command_rename_spec, start_session_rename_spec,
    start_shelf_rename_spec,
};
use crate::state::model::{AppState, AppV, RenameV};
use crate::state::ops::{
    close_spec, find_command, find_command_index, find_session, find_session_index, find_shelf,
    find_shelf_index, focus_spec, insert_command_spec, new_session_spec, toggle_pin_spec,
};
use crate::text::{opt_str, push_char};

verus! {

/// What the pointer did to a row in one frame.
#[derive(Debug, Clone, Copy)]
pub struct RowEvent {
    /// The row's rename field asked to commit (Enter, or the focus left it).
    pub commit: bool,
    pub double_clicked: bool,
    pub clicked: bool,
}

/// A click on a session row: commit a rename; a double click starts one; a
/// click on × closes the session (the last one cannot be closed: the notice
/// is returned), elsewhere it makes the session active.
pub open spec fn session_row_spec(st: AppV, id: Seq<char>, ev: RowEvent, on_close: bool) -> (AppV, Option<Seq<char>>) {
    if find_session(st.sessions, id) is None {
        (st, None)
    } else if ev.commit {
        (commit_rename_spec(st), None)
    } else if ev.double_clicked {
        (start_session_rename_spec(st, id), None)
    } else if ev.clicked && st.ui.rename_target != Some(RenameV::Session(id)) {
        if on_close {
            let (s, closed) = close_spec(st, id);
            (s, if closed { None } else { Some(last_session_notice()) })
        } else {
            (focus_spec(st, id), None)
        }
    } else {
        (st, None)
    }
}

/// The toast of a removed shelf item.
pub open spec fn removed_notice(label: Seq<char>) -> Seq<char> {
    "Removed \""@ + label + seq!['"']
}

/// The toast of a shelf item opened as a session.
pub open spec fn opened_notice(label: Seq<char>) -> Seq<char> {
    "Opened \""@ + label + seq!['"']
}

/// A click on a shelf row: commit a rename; a click on the bin removes the
/// item, on the pencil starts a rename, elsewhere opens a session in its
/// directory. The toast is a label and a detail line.
pub open spec fn shelf_row_spec(st: AppV, id: Seq<char>, ev: RowEvent, on_edit: bool, on_delete: bool) -> (AppV, Option<(Seq<char>, Option<Seq<char>>)>) {
    match find_shelf(st.shelf, id) {
        None => (st, None),
        Some(k) => {
            let label = st.shelf[k].label;
            let path = st.shelf[k].path;
            if ev.commit {
                (commit_rename_spec(st), None)
            } else if ev.clicked && st.ui.rename_target != Some(RenameV::Shelf(id)) {
                if on_delete {
                    (remove_shelf_spec(st, id), Some((removed_notice(label), None)))
                } else if on_edit {
                    (start_shelf_rename_spec(st, id), None)
                } else {
                    (new_session_spec(st, label, path), Some((opened_notice(label), Some(path))))
                }
            } else {
                (st, None)
            }
        },
    }
}

/// A click on a command row: commit an edit; a double click starts editing
/// the command's text; a click on the pin flips it, elsewhere the command
/// goes into the input line (its toast label is returned).
pub open spec fn command_row_spec(st: AppV, id: Seq<char>, ev: RowEvent, on_pin: bool) -> (AppV, Option<Seq<char>>) {
    let renaming = st.ui.rename_target == Some(RenameV::Command(id));
    if find_command(st.commands, id) is None {
        (st, None)
    } else if ev.commit {
        (commit_rename_spec(st), None)
    } else if ev.double_clicked && !renaming {
        (start_command_rename_spec(st, id), None)
    } else if ev.clicked && !renaming {
        if on_pin {
            (toggle_pin_spec(st, id), None)
        } else {
            insert_command_spec(st, id)
        }
    } else {
        (st, None)
    }
}

/// The toast pair as views.
pub open spec fn toast_view(t: Option<(String, Option<String>)>) -> Option<(Seq<char>, Option<Seq<char>>)> {
    match t {
        Some((a, b)) => Some((a@, opt_str(b))),
        None => None,
    }
}

fn quoted(prefix: &str, label: &str) -> (r: String)
    ensures
        r@ == prefix@ + label@ + seq!['"'],
{
    let mut r = String::from_str(prefix);
    r.append(label);
    push_char(&mut r, '"');
    r
}

impl AppState {
    /// Applies what the pointer did to a session row (see
    /// `session_row_spec`); returns the toast to show.
    pub fn session_row_input(&mut self, id: &str, ev: RowEvent, on_close: bool) -> (r: Option<String>)
        ensures
            (final(self)@, opt_str(r)) == session_row_spec(old(self)@, id@, ev, on_close),
    {
        if find_session_index(&self.sessions, id).is_none() {
            return None;
        }
        if ev.commit {
            self.commit_rename();
        } else if ev.double_clicked {
            self.start_session_rename(id);
        } else if ev.clicked && !self.is_renaming_session(id) {
            if on_close {
                if !self.close_session(id) {
                    return Some(String::from_str("最後のセッションは閉じられません"));
                }
            } else {
                self.focus_session(id);
            }
        }
        None
    }

    /// Applies what the pointer did to a shelf row (see `shelf_row_spec`);
    /// returns the toast to show.
    pub fn shelf_row_input(&mut self, id: &str, ev: RowEvent, on_edit: bool, on_delete: bool) -> (r: Option<(String, Option<String>)>)
        requires
            ev.clicked ==> old(self).next_id < u64::MAX,
        ensures
            (final(self)@, toast_view(r)) == shelf_row_spec(old(self)@, id@, ev, on_edit, on_delete),
    {
        let k = match find_shelf_index(&self.shelf, id) {
            None => return None,
            Some(k) => k,
        };
        let label = self.shelf[k].label.clone();
        let path = self.shelf[k].path.clone();
        if ev.commit {
            self.commit_rename();
            None
        } else if ev.clicked && !self.is_renaming_shelf(id) {
            if on_delete {
                self.remove_shelf(id);
                Some((quoted("Removed \"", label.as_str()), None))
            } else if on_edit {
                self.start_shelf_rename(id);
                None
            } else {
                self.new_session(label.as_str(), path.as_str());
                Some((quoted("Opened \"", label.as_str()), Some(path)))
            }
        } else {
            None
        }
    }

    /// Applies what the pointer did to a command row (see
    /// `command_row_spec`); returns the toast to show.
    pub fn command_row_input(&mut self, id: &str, ev: RowEvent, on_pin: bool) -> (r: Option<String>)
        ensures
            (final(self)@, opt_str(r)) == command_row_spec(old(self)@, id@, ev, on_pin),
    {
        if find_command_index(&self.commands, id).is_none() {
            return None;
        }
        let renaming = self.is_renaming_command(id);
        if ev.commit {
            self.commit_rename();
            None
        } else if ev.double_clicked && !renaming {
            self.start_command_rename(id);
            None
        } else if ev.clicked && !renaming {
            if on_pin {
                self.toggle_command_pin(id);
                None
            } else {
                self.insert_command(id)
            }
        } else {
            None
        }
    }
}

} // verus!
