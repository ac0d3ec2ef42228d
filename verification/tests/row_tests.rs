use tanaterm::state::{AppState, PendingPty, RenameTarget};
use tanaterm::ui::rows::RowEvent;

const CLICK: RowEvent = RowEvent { commit: false, double_clicked: false, clicked: true };
const DOUBLE: RowEvent = RowEvent { commit: false, double_clicked: true, clicked: false };
const COMMIT: RowEvent = RowEvent { commit: true, double_clicked: false, clicked: false };

#[test]
fn session_row_click_focuses_and_close_removes() {
    let mut s = AppState::seed();
    assert_eq!(s.session_row_input("s3", CLICK, false), None);
    assert_eq!(s.ui.active_session_id.as_deref(), Some("s3"));
    assert_eq!(s.session_row_input("s3", CLICK, true), None);
    assert!(s.sessions.iter().all(|x| x.id != "s3"));
    assert!(matches!(s.pending.last(), Some(PendingPty::Close { id }) if id == "s3"));
}

#[test]
fn session_row_close_of_the_last_session_reports_it() {
    let mut s = AppState::seed();
    while s.sessions.len() > 1 {
        let id = s.sessions[0].id.clone();
        s.session_row_input(&id, CLICK, true);
    }
    let id = s.sessions[0].id.clone();
    assert_eq!(
        s.session_row_input(&id, CLICK, true).as_deref(),
        Some("最後のセッションは閉じられません")
    );
    assert_eq!(s.sessions.len(), 1);
}

#[test]
fn session_row_double_click_renames_and_commit_applies() {
    let mut s = AppState::seed();
    s.session_row_input("s2", DOUBLE, false);
    assert!(matches!(&s.ui.rename_target, Some(RenameTarget::Session(id)) if id == "s2"));
    // A click on the row being renamed does nothing.
    s.session_row_input("s2", CLICK, false);
    assert_eq!(s.ui.active_session_id.as_deref(), Some("s1"));
    s.ui.rename_buffer = "  build  ".to_owned();
    s.session_row_input("s2", COMMIT, false);
    assert!(s.ui.rename_target.is_none());
    assert_eq!(s.sessions.iter().find(|x| x.id == "s2").unwrap().name, "build");
}

#[test]
fn session_row_of_unknown_id_does_nothing() {
    let mut s = AppState::seed();
    let before = s.sessions.len();
    assert_eq!(s.session_row_input("nope", CLICK, true), None);
    assert_eq!(s.sessions.len(), before);
}

#[test]
fn shelf_row_click_opens_a_session_in_its_directory() {
    let mut s = AppState::seed();
    let n = s.sessions.len();
    let toast = s.shelf_row_input("f1", CLICK, false, false);
    assert_eq!(
        toast,
        Some(("Opened \"tanaterm\"".to_owned(), Some("~/work/tanaterm".to_owned())))
    );
    assert_eq!(s.sessions.len(), n + 1);
    let last = s.sessions.last().unwrap();
    assert_eq!(last.name, "tanaterm");
    assert_eq!(last.pwd, "~/work/tanaterm");
    assert_eq!(s.ui.active_session_id.as_deref(), Some(last.id.as_str()));
}

#[test]
fn shelf_row_bin_removes_and_pencil_renames() {
    let mut s = AppState::seed();
    let toast = s.shelf_row_input("f2", CLICK, false, true);
    assert_eq!(toast, Some(("Removed \"api\"".to_owned(), None)));
    assert!(s.shelf.iter().all(|x| x.id != "f2"));
    assert_eq!(s.shelf_row_input("f1", CLICK, true, false), None);
    assert!(matches!(&s.ui.rename_target, Some(RenameTarget::Shelf(id)) if id == "f1"));
    // While renaming, a click does not open a session.
    let n = s.sessions.len();
    assert_eq!(s.shelf_row_input("f1", CLICK, false, false), None);
    assert_eq!(s.sessions.len(), n);
}

#[test]
fn command_row_click_inserts_and_pin_flips() {
    let mut s = AppState::seed();
    let toast = s.command_row_input("c1", CLICK, false);
    assert_eq!(toast.as_deref(), Some("Inserted df -h"));
    assert_eq!(s.active().unwrap().input_buffer, "df -h");
    let pinned = s.commands.iter().find(|c| c.id == "c1").unwrap().pinned;
    assert_eq!(s.command_row_input("c1", CLICK, true), None);
    assert_eq!(s.commands.iter().find(|c| c.id == "c1").unwrap().pinned, !pinned);
}

#[test]
fn command_row_double_click_edits_the_text() {
    let mut s = AppState::seed();
    s.command_row_input("c2", DOUBLE, false);
    assert!(matches!(&s.ui.rename_target, Some(RenameTarget::Command(id)) if id == "c2"));
    s.ui.rename_buffer = "cd ..".to_owned();
    s.command_row_input("c2", COMMIT, false);
    assert_eq!(s.commands.iter().find(|c| c.id == "c2").unwrap().cmd, "cd ..");
}
