use tanaterm::shortcuts::Shortcuts;
use tanaterm::state::{AppState, PendingPty, RenameTarget};

fn none() -> Shortcuts {
    Shortcuts {
        toggle_left: false,
        toggle_right: false,
        new_session: false,
        close_session: false,
        escape: false,
        search_focused: false,
    }
}

#[test]
fn shortcuts_toggle_the_rails() {
    let mut s = AppState::seed();
    let left = s.ui.rail_left_visible;
    let right = s.ui.rail_right_visible;
    let toast = s.apply_shortcuts(Shortcuts { toggle_left: true, ..none() });
    assert_eq!(toast, None);
    assert_eq!(s.ui.rail_left_visible, !left);
    assert_eq!(s.ui.rail_right_visible, right);
    s.apply_shortcuts(Shortcuts { toggle_left: true, toggle_right: true, ..none() });
    assert_eq!(s.ui.rail_left_visible, left);
    assert_eq!(s.ui.rail_right_visible, !right);
}

#[test]
fn shortcut_new_session_opens_an_active_session_at_home() {
    let mut s = AppState::seed();
    let n = s.sessions.len();
    let toast = s.apply_shortcuts(Shortcuts { new_session: true, ..none() });
    assert_eq!(toast.as_deref(), Some("New session"));
    assert_eq!(s.sessions.len(), n + 1);
    let last = s.sessions.last().unwrap();
    assert_eq!(last.name, "session");
    assert_eq!(last.pwd, "~/");
    assert_eq!(s.ui.active_session_id.as_deref(), Some(last.id.as_str()));
    assert!(matches!(s.pending.last(), Some(PendingPty::Spawn { cwd, .. }) if cwd == "~/"));
}

#[test]
fn shortcut_close_removes_the_active_session() {
    let mut s = AppState::seed();
    let toast = s.apply_shortcuts(Shortcuts { close_session: true, ..none() });
    assert_eq!(toast, None);
    assert!(s.sessions.iter().all(|x| x.id != "s1"));
    assert_eq!(s.ui.active_session_id.as_deref(), Some("s2"));
    assert!(matches!(s.pending.last(), Some(PendingPty::Close { id }) if id == "s1"));
}

#[test]
fn shortcut_close_on_the_last_session_reports_it() {
    let mut s = AppState::seed();
    while s.sessions.len() > 1 {
        s.apply_shortcuts(Shortcuts { close_session: true, ..none() });
    }
    let toast = s.apply_shortcuts(Shortcuts { close_session: true, ..none() });
    assert_eq!(toast.as_deref(), Some("最後のセッションは閉じられません"));
    assert_eq!(s.sessions.len(), 1);
}

#[test]
fn shortcut_escape_drops_rename_form_and_focused_search() {
    let mut s = AppState::seed();
    s.start_session_rename("s2");
    s.start_command_add();
    s.ui.command_add_cmd = "make".to_owned();
    s.ui.search_query = "git".to_owned();
    s.apply_shortcuts(Shortcuts { escape: true, ..none() });
    assert!(s.ui.rename_target.is_none());
    assert!(!s.ui.command_add_active);
    assert_eq!(s.ui.command_add_cmd, "");
    // The search field did not have the focus: its text stays.
    assert_eq!(s.ui.search_query, "git");
    s.apply_shortcuts(Shortcuts { escape: true, search_focused: true, ..none() });
    assert_eq!(s.ui.search_query, "");
}

#[test]
fn shortcut_search_focus_without_escape_keeps_the_query() {
    let mut s = AppState::seed();
    s.start_shelf_rename("f1");
    s.ui.search_query = "git".to_owned();
    s.apply_shortcuts(Shortcuts { search_focused: true, ..none() });
    assert_eq!(s.ui.search_query, "git");
    assert!(matches!(s.ui.rename_target, Some(RenameTarget::Shelf(_))));
}
