//! The window-wide keyboard shortcuts and what each does to the state.
//!
//! The window reports which shortcuts were pressed in a frame; the changes
//! they make are decided here, in a fixed order: the rails, a new session,
//! closing the active one, then Escape.
use vstd::prelude::*;
use crate::state::edit::{cancel_rename_spec, form_closed};
use crate::state::model::{AppState, AppV, UiV};
use crate::state::ops::{close_spec, find_session, lemma_first_index, new_session_spec, session_is};
use crate::text::opt_str;

verus! {

/// The shortcuts pressed in one frame, and whether the search field had the
/// focus.
#[derive(Debug, Clone, Copy)]
pub struct Shortcuts {
    /// ⌘1: show or hide the left rail.
    pub toggle_left: bool,
    /// ⌘2: show or hide the right rail.
    pub toggle_right: bool,
    /// ⌘T: open a new session.
    pub new_session: bool,
    /// ⌘W: close the active session.
    pub close_session: bool,
    /// Escape.
    pub escape: bool,
    /// The search field has the focus.
    pub search_focused: bool,
}

/// The toast shown when the last session was asked to close.
pub open spec fn last_session_notice() -> Seq<char> {
    "最後のセッションは閉じられません"@
}

/// ⌘1 and ⌘2: the rails shown or hidden.
pub open spec fn rails_spec(st: AppV, k: Shortcuts) -> AppV {
    AppV {
        ui: UiV {
            rail_left_visible: st.ui.rail_left_visible != k.toggle_left,
            rail_right_visible: st.ui.rail_right_visible != k.toggle_right,
            ..st.ui
        },
        ..st
    }
}

/// ⌘W: the active session closes; when it cannot (it is the last one), the
/// notice replaces the toast `t`.
pub open spec fn close_step_spec(st: AppV, t: Option<Seq<char>>, k: Shortcuts) -> (AppV, Option<Seq<char>>) {
    if k.close_session {
        match st.ui.active {
            Some(id) => {
                let (s, closed) = close_spec(st, id);
                (s, if closed { t } else { Some(last_session_notice()) })
            },
            None => (st, t),
        }
    } else {
        (st, t)
    }
}

/// Escape: an open rename and the command form are dropped, and the search
/// field, if it has the focus, is emptied.
pub open spec fn escape_spec(st: AppV, k: Shortcuts) -> AppV {
    let s1 = if k.escape && st.ui.rename_target is Some {
        cancel_rename_spec(st)
    } else {
        st
    };
    let s2 = if k.escape && s1.ui.command_add_active {
        AppV { ui: form_closed(s1.ui), ..s1 }
    } else {
        s1
    };
    if k.escape && k.search_focused {
        AppV { ui: UiV { search_query: Seq::empty(), ..s2.ui }, ..s2 }
    } else {
        s2
    }
}

/// What the shortcuts do: the new state and the toast to show, if any.
pub open spec fn shortcuts_spec(st: AppV, k: Shortcuts) -> (AppV, Option<Seq<char>>) {
    let s1 = rails_spec(st, k);
    let s2 = if k.new_session {
        new_session_spec(s1, "session"@, "~/"@)
    } else {
        s1
    };
    let t2: Option<Seq<char>> = if k.new_session {
        Some("New session"@)
    } else {
        None
    };
    let (s3, t3) = close_step_spec(s2, t2, k);
    (escape_spec(s3, k), t3)
}

impl AppState {
    fn toggle_rails(&mut self, keys: Shortcuts)
        ensures
            final(self)@ == rails_spec(old(self)@, keys),
            final(self).next_id == old(self).next_id,
    {
        if keys.toggle_left {
            self.ui.rail_left_visible = !self.ui.rail_left_visible;
        }
        if keys.toggle_right {
            self.ui.rail_right_visible = !self.ui.rail_right_visible;
        }
    }

    fn close_active(&mut self, toast: Option<String>, keys: Shortcuts) -> (r: Option<String>)
        ensures
            (final(self)@, opt_str(r)) == close_step_spec(old(self)@, opt_str(toast), keys),
    {
        let mut toast = toast;
        if keys.close_session {
            if let Some(id) = self.ui.active_session_id.clone() {
                if !self.close_session(id.as_str()) {
                    toast = Some(String::from_str("最後のセッションは閉じられません"));
                }
            }
        }
        toast
    }

    fn escape_pressed(&mut self, keys: Shortcuts)
        ensures
            final(self)@ == escape_spec(old(self)@, keys),
    {
        if keys.escape {
            if self.ui.rename_target.is_some() {
                self.cancel_rename();
            }
            if self.ui.command_add_active {
                self.cancel_command_add();
            }
            if keys.search_focused {
                self.ui.search_query = String::new();
            }
        }
    }

    /// Applies the shortcuts of one frame (see `shortcuts_spec`) and returns
    /// the toast to show: "New session", or the notice that the last session
    /// cannot be closed.
    pub fn apply_shortcuts(&mut self, keys: Shortcuts) -> (r: Option<String>)
        requires
            keys.new_session ==> old(self).next_id < u64::MAX,
        ensures
            (final(self)@, opt_str(r)) == shortcuts_spec(old(self)@, keys),
    {
        self.toggle_rails(keys);
        let mut toast: Option<String> = None;
        if keys.new_session {
            self.new_session("session", "~/");
            toast = Some(String::from_str("New session"));
        }
        let toast = self.close_active(toast, keys);
        self.escape_pressed(keys);
        toast
    }
}

/// The shortcuts never close the last session: a state with a session keeps
/// one, whatever was pressed.
pub proof fn law_shortcuts_keep_a_session(st: AppV, k: Shortcuts)
    requires
        st.sessions.len() >= 1,
    ensures
        shortcuts_spec(st, k).0.sessions.len() >= 1,
{
    let s1 = rails_spec(st, k);
    let s2 = if k.new_session {
        new_session_spec(s1, "session"@, "~/"@)
    } else {
        s1
    };
    assert(s2.sessions.len() >= 1);
    let t2: Option<Seq<char>> = if k.new_session {
        Some("New session"@)
    } else {
        None
    };
    let s3 = close_step_spec(s2, t2, k).0;
    if k.close_session && s2.ui.active is Some && s2.sessions.len() > 1 {
        let id = s2.ui.active.unwrap();
        if find_session(s2.sessions, id) is Some {
            lemma_first_index(s2.sessions, session_is(id), 0);
        }
    }
    assert(s3.sessions.len() >= 1);
    assert(escape_spec(s3, k).sessions == s3.sessions);
}

} // verus!
