use tanaterm::clock::{format_hhmm, format_hhmmss, now_hhmm, now_hhmmss};
use tanaterm::config::{shell_override, shell_program_choice, Shell};
use tanaterm::notify::{notification_script, notify_body};
use tanaterm::pty::sent_command;
use tanaterm::shell_integration::{plan, shell_quote};
use tanaterm::state::complete::{expand_path, DirEntry};
use tanaterm::state::edit::shelf_label_of;
use tanaterm::state::output::collapse_home;
use tanaterm::state::{AppState, PendingPty, SessionStatus};
use tanaterm::ui::central::has_running;
use tanaterm::ui::right_rail::{matches_query, relative_time, section_command_ids, Section};
use tanaterm::ui::widgets::Icon;

fn entry(name: &str, is_dir: bool) -> DirEntry {
    DirEntry { name: name.to_string(), is_dir }
}

#[test]
fn clock_formats_japan_time() {
    assert_eq!(format_hhmm(0), "09:00");
    assert_eq!(format_hhmmss(3661), "10:01:01");
    assert_eq!(format_hhmm(15 * 3600 + 59 * 60), "00:59");
    // The wall clock reads a plausible time of day.
    let t = now_hhmm();
    assert_eq!(t.len(), 5);
    assert_eq!(&t[2..3], ":");
    let hh: u32 = t[0..2].parse().unwrap();
    assert!(hh < 24);
    assert_eq!(now_hhmmss().len(), 8);
}

#[test]
fn shell_programs_and_overrides() {
    assert_eq!(Shell::Bash.program(), "/bin/bash");
    assert_eq!(Shell::Zsh.program(), "/bin/zsh");
    assert_eq!(Shell::default(), Shell::Zsh);
    assert_eq!(Shell::Zsh.toggled(), Shell::Bash);
    let zsh = Some("/opt/homebrew/bin/zsh".to_string());
    assert_eq!(shell_override(Shell::Zsh, &zsh, &None), zsh);
    assert_eq!(shell_override(Shell::Bash, &zsh, &None), None);
    assert_eq!(shell_program_choice(Shell::Zsh, zsh.clone(), true), "/opt/homebrew/bin/zsh");
    assert_eq!(shell_program_choice(Shell::Zsh, zsh, false), "/bin/zsh");
    assert_eq!(shell_program_choice(Shell::Bash, None, true), "/bin/bash");
}

#[test]
fn toggle_shell_flips_between_zsh_and_bash() {
    let mut s = AppState::seed();
    assert_eq!(s.ui.shell, Shell::Zsh);
    s.toggle_shell();
    assert_eq!(s.ui.shell, Shell::Bash);
    s.toggle_shell();
    assert_eq!(s.ui.shell, Shell::Zsh);
}

#[test]
fn notify_body_with_negative_exit_and_hours() {
    let body = notify_body("sleep", Some(-1), 3725);
    assert_eq!(body, "「sleep が完了しました (exit -1 · 1h02m)」");
    let body = notify_body("x", None, 5);
    assert_eq!(body, "「x が完了しました (5s)」");
}

#[test]
fn relative_time_buckets() {
    assert_eq!(relative_time(100, 159), "now");
    assert_eq!(relative_time(100, 160), "1m");
    assert_eq!(relative_time(0, 7200), "2h");
    assert_eq!(relative_time(0, 3 * 86400), "3d");
    // A time in the future counts as now.
    assert_eq!(relative_time(500, 100), "now");
}

#[test]
fn sections_split_the_catalogue() {
    let s = AppState::seed();
    let c1 = &s.commands[0];
    assert!(Section::Pinned.contains(c1));
    assert!(!Section::Recent.contains(c1));
    let mut s = s;
    s.record_recent_command("git log", 7);
    let recent = s.commands.last().unwrap();
    assert!(Section::Recent.contains(recent));
    assert!(!Section::Pinned.contains(recent));
}

#[test]
fn icons_have_names_and_glyphs() {
    assert_eq!(Icon::Pin.name(), "pin");
    assert_eq!(Icon::Edit.name(), "edit");
    assert_eq!(Icon::Pin.fallback_glyph(), "⌖");
    assert_eq!(Icon::Edit.fallback_glyph(), "✎");
}

#[test]
fn shell_quote_escapes_single_quotes() {
    assert_eq!(shell_quote("/tmp/a b"), "'/tmp/a b'");
    assert_eq!(shell_quote("it's"), "'it'\\''s'");
    assert_eq!(shell_quote(""), "''");
}

#[test]
fn zsh_prepare_writes_rc_files_and_sets_zdotdir() {
    let p = plan(Shell::Zsh, "/tmp/int-1");
    assert!(p.files.iter().any(|f| f.name == ".zshrc"));
    assert!(p.files.iter().any(|f| f.name == ".zshenv"));
    let zdotdir = p.env.iter().find(|(k, _)| k == "ZDOTDIR");
    assert!(zdotdir.is_some(), "ZDOTDIR is set");
    let names: Vec<&str> = p.files.iter().map(|f| f.name.as_str()).collect();
    assert_eq!(names, vec![".zshenv", ".zprofile", ".zlogin", ".zshrc"]);
    assert_eq!(
        p.files[0].contents,
        "[ -f \"$HOME/.zshenv\" ] && source \"$HOME/.zshenv\"\nexport ZDOTDIR='/tmp/int-1'\n"
    );
    assert!(p.files[3].contents.contains("133;C"), "preexec sends C");
    assert!(p.files[3].contents.contains("source \"$HOME/.zshrc\""));
    assert_eq!(p.env[0], ("ZDOTDIR".to_string(), "/tmp/int-1".to_string()));
    assert!(p.args.is_empty());
    assert!(!p.suppress_login);
}

#[test]
fn bash_prepare_uses_rcfile_and_suppresses_login() {
    let p = plan(Shell::Bash, "/tmp/int-2/");
    assert!(p.suppress_login);
    assert_eq!(p.args, vec!["--rcfile".to_string(), "/tmp/int-2/bashrc".to_string()]);
    assert!(p.files[0].contents.contains("PROMPT_COMMAND"));
    assert!(p.files[0].contents.contains("source \"$HOME/.bashrc\""));
    let p = plan(Shell::Bash, "/tmp/int-3");
    assert_eq!(p.args[1], "/tmp/int-3/bashrc");
}

#[test]
fn sent_command_strips_trailing_newlines() {
    assert_eq!(sent_command(b"ls -la\n"), "ls -la");
    assert_eq!(sent_command(b"echo \xe3\x81\x82\n\n"), "echo あ");
    assert_eq!(sent_command(b"\xff\n"), "");
    assert_eq!(sent_command(b""), "");
}

#[test]
fn home_is_collapsed_to_tilde() {
    let home = Some("/Users/me".to_string());
    assert_eq!(collapse_home("/Users/me", &home), "~");
    assert_eq!(collapse_home("/Users/me/work", &home), "~/work");
    assert_eq!(collapse_home("/Users/meow", &home), "/Users/meow");
    assert_eq!(collapse_home("/var/log", &home), "/var/log");
    assert_eq!(collapse_home("/Users/me/work", &None), "/Users/me/work");
}

#[test]
fn display_paths_expand_under_home() {
    let home = Some("/Users/me".to_string());
    let x = |s: &str| -> Vec<char> { s.chars().collect() };
    assert_eq!(expand_path(&x("~"), &home), Some(x("/Users/me")));
    assert_eq!(expand_path(&x("~/"), &home), Some(x("/Users/me")));
    assert_eq!(expand_path(&x("~/a/b"), &home), Some(x("/Users/me/a/b")));
    assert_eq!(expand_path(&x("/etc"), &home), Some(x("/etc")));
    assert_eq!(expand_path(&x("rel"), &home), None);
    assert_eq!(expand_path(&x("~/a"), &None), None);
}

#[test]
fn shelf_labels_from_paths() {
    assert_eq!(shelf_label_of("~/work/foo/"), "foo");
    assert_eq!(shelf_label_of("~/work/foo"), "foo");
    assert_eq!(shelf_label_of("~/"), "home");
    assert_eq!(shelf_label_of("~"), "home");
    assert_eq!(shelf_label_of("/"), "home");
    assert_eq!(shelf_label_of(""), "home");
    assert_eq!(shelf_label_of("plain"), "plain");
}

#[test]
fn add_active_to_shelf_reports_label_and_path() {
    let mut s = AppState::seed();
    s.focus_session("s5");
    let toast = s.add_active_to_shelf();
    assert_eq!(toast, Some(("Added \"notes\" to shelf".to_string(), "~/notes".to_string())));
    assert_eq!(s.shelf.last().unwrap().id, "f100");
    assert_eq!(s.shelf.last().unwrap().tag, "work");
}

#[test]
fn insert_command_fills_the_input_line() {
    let mut s = AppState::seed();
    s.focus_session("s3");
    assert_eq!(s.insert_command("c1"), Some("Inserted df -h".to_string()));
    assert_eq!(s.active().unwrap().input_buffer, "df -h");
    assert_eq!(s.insert_command("missing"), None);
    s.toggle_command_pin("c1");
    assert!(!s.commands[0].pinned);
}

#[test]
fn new_sessions_take_increasing_ids() {
    let mut s = AppState::boot();
    assert_eq!(s.sessions.len(), 1);
    assert_eq!(s.pending, vec![PendingPty::Spawn { id: "s1".into(), cwd: "~/".into() }]);
    assert_eq!(s.new_session("a", "~/a"), "s100");
    assert_eq!(s.new_session("b", "~/b"), "s101");
    assert_eq!(s.ui.active_session_id.as_deref(), Some("s101"));
    assert_eq!(s.pending.len(), 3);
}

#[test]
fn history_edges() {
    let mut s = AppState::seed();
    s.focus_session("s1");
    // Down with no browsing stays on a new line.
    s.step_history(1);
    assert_eq!(s.active().unwrap().history_cursor, None);
    // Up past the oldest entry stays there.
    for _ in 0..5 {
        s.step_history(-1);
    }
    assert_eq!(s.active().unwrap().history_cursor, Some(0));
    assert_eq!(s.active().unwrap().input_buffer, "ls -la");
}

#[test]
fn tab_completion_of_a_single_directory_adds_a_slash() {
    let mut s = AppState::seed();
    s.focus_session("s3");
    s.home = Some("/Users/me".to_string());
    s.active_mut().unwrap().input_buffer = "cd wo".to_string();
    assert_eq!(s.tab_query(), Some("/Users/me/Downloads".to_string()));
    s.tab_complete_with(&vec![entry("work", true), entry("notes.txt", false)]);
    assert_eq!(s.active().unwrap().input_buffer, "cd work/");
}

#[test]
fn tab_completion_of_several_matches_uses_their_common_prefix() {
    let mut s = AppState::seed();
    s.focus_session("s3");
    s.active_mut().unwrap().cwd = Some("/data".to_string());
    s.active_mut().unwrap().input_buffer = "cat logs/ap".to_string();
    assert_eq!(s.tab_query(), Some("/data/logs/".to_string()));
    s.tab_complete_with(&vec![entry("app-1.log", false), entry("app-2.log", false), entry("db.log", false)]);
    assert_eq!(s.active().unwrap().input_buffer, "cat logs/app-");
    // Nothing more in common: unchanged.
    s.tab_complete_with(&vec![entry("app-1.log", false), entry("app-2.log", false)]);
    assert_eq!(s.active().unwrap().input_buffer, "cat logs/app-");
    // No match: unchanged.
    s.tab_complete_with(&vec![entry("zzz", false)]);
    assert_eq!(s.active().unwrap().input_buffer, "cat logs/app-");
}

#[test]
fn tab_query_needs_a_real_directory() {
    let mut s = AppState::seed();
    s.focus_session("s3");
    // "~/Downloads" cannot be made real without a home directory.
    assert_eq!(s.tab_query(), None);
    s.focus_session("s4");
    s.active_mut().unwrap().input_buffer = "less ~/x/y".to_string();
    s.home = Some("/h".to_string());
    assert_eq!(s.tab_query(), Some("/h/x/".to_string()));
}

#[test]
fn running_block_queries() {
    let mut s = AppState::seed();
    s.focus_session("s1");
    assert!(has_running(&s));
    let (cmd, _) = s.running_command("s1").unwrap();
    assert_eq!(cmd, "pnpm dev");
    s.focus_session("s3");
    assert!(!has_running(&s));
    assert_eq!(s.running_command("s3"), None);
    s.mark_session_exited("s1");
    assert_eq!(s.running_command("s1"), None);
    assert_eq!(s.sessions[0].status, SessionStatus::Idle);
}

#[test]
fn recorded_uses_saturate() {
    let mut s = AppState::seed();
    s.commands[0].uses = u32::MAX;
    s.record_recent_command("df -h", 9);
    assert_eq!(s.commands[0].uses, u32::MAX);
    assert_eq!(s.commands[0].last_used, Some(9));
}

#[test]
fn apply_to_unknown_session_changes_nothing() {
    let mut s = AppState::seed();
    let before = s.to_persistent();
    s.apply_term_action("zz", tanaterm::term::TermAction::EndBlock { exit: Some(1) });
    let after = s.to_persistent();
    assert_eq!(format!("{before:?}"), format!("{after:?}"));
    assert_eq!(s.sessions[0].status, SessionStatus::Live);
}

#[test]
fn shell_program_uses_override_when_file_exists() {
    let zsh_path = Some("/bin/sh".to_string());
    let over = shell_override(Shell::Zsh, &zsh_path, &None);
    // The override names an existing file.
    let exists = over.as_deref() == Some("/bin/sh");
    let result = shell_program_choice(Shell::Zsh, over, exists);
    assert_eq!(result, "/bin/sh", "the override is used");
}

#[test]
fn shell_program_falls_back_to_default_when_file_missing() {
    let zsh_path = Some("/nonexistent/zsh".to_string());
    let over = shell_override(Shell::Zsh, &zsh_path, &None);
    let result = shell_program_choice(Shell::Zsh, over, false);
    assert_eq!(result, "/bin/zsh", "a missing file falls back to the standard path");
}

#[test]
fn search_matches_fields_ignoring_ascii_case() {
    assert!(matches_query("", &["anything"]));
    assert!(matches_query("   ", &[]));
    assert!(matches_query("DISK", &["df -h", "disk free by mount"]));
    assert!(matches_query(" pods ", &["kubectl get pods -A", ""]));
    assert!(!matches_query("zzz", &["df -h", "disk free"]));
    assert!(!matches_query("x", &[]));
}

#[test]
fn sections_list_pinned_in_order_and_recent_newest_first() {
    let mut s = AppState::seed();
    s.record_recent_command("old", 100);
    s.record_recent_command("new", 300);
    s.record_recent_command("mid", 200);
    s.record_recent_command("mid2", 200);
    let pinned = section_command_ids(&s.commands, Section::Pinned, "");
    assert_eq!(pinned, vec!["c1", "c2", "c3", "c4", "c5", "c6"]);
    let recent = section_command_ids(&s.commands, Section::Recent, "");
    let names: Vec<String> = recent
        .iter()
        .map(|id| s.commands.iter().find(|c| &c.id == id).unwrap().cmd.clone())
        .collect();
    assert_eq!(names, vec!["new", "mid", "mid2", "old"]);
    let filtered = section_command_ids(&s.commands, Section::Pinned, "LOGS");
    assert_eq!(filtered, vec!["c5"]);
}

#[test]
fn notification_script_escapes_the_body() {
    assert_eq!(
        notification_script("say \"hi\""),
        "display notification \"say \\\"hi\\\"\" with title \"tanaterm\""
    );
}
