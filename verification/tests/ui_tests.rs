use tanaterm::state::{AppState, PendingPty};
use tanaterm::ui::central::{busy_command, format_elapsed, input_hint, send_label, truncate_for_hint};

#[test]
fn truncate_for_hint_keeps_short_strings_as_is() {
    assert_eq!(truncate_for_hint("ls", 10), "ls");
    assert_eq!(truncate_for_hint("0123456789", 10), "0123456789");
}

#[test]
fn truncate_for_hint_replaces_overflow_with_ellipsis() {
    assert_eq!(truncate_for_hint("01234567890", 10), "012345678…");
}

#[test]
fn truncate_for_hint_counts_multibyte_chars_correctly() {
    // 6 文字 (3 漢字 + 3 ascii) は max=6 で無加工
    assert_eq!(truncate_for_hint("日本語abc", 6), "日本語abc");
    // 8 文字を max=5 で切り詰め
    assert_eq!(truncate_for_hint("日本語テスト用", 5), "日本語テ…");
}

#[test]
fn format_elapsed_seconds_only() {
    assert_eq!(format_elapsed(0), "0s");
    assert_eq!(format_elapsed(59), "59s");
}

#[test]
fn format_elapsed_minutes_with_zero_padded_seconds() {
    assert_eq!(format_elapsed(60), "1m00s");
    assert_eq!(format_elapsed(3599), "59m59s");
}

#[test]
fn format_elapsed_hours_with_zero_padded_minutes() {
    assert_eq!(format_elapsed(3600), "1h00m");
    assert_eq!(format_elapsed(3661), "1h01m");
}

#[test]
fn input_hint_names_the_running_command() {
    assert_eq!(input_hint(&None), "type a command…");
    assert_eq!(input_hint(&Some("pnpm dev".to_owned())), "type to send stdin to pnpm dev…");
    assert_eq!(
        input_hint(&Some("0123456789012345678901234567".to_owned())),
        "type to send stdin to 01234567890123456789012……"
    );
}

#[test]
fn send_label_follows_busy() {
    assert_eq!(send_label(true), "send stdin");
    assert_eq!(send_label(false), "press");
}

#[test]
fn busy_command_is_the_running_newest_block() {
    let mut s = AppState::seed();
    assert_eq!(busy_command(&s).as_deref(), Some("pnpm dev"));
    s.focus_session("s3");
    let running = s.active().unwrap().blocks.last().map(|b| b.running).unwrap_or(false);
    assert_eq!(busy_command(&s).is_some(), running);
}

#[test]
fn submit_line_sends_stdin_while_busy_and_submits_otherwise() {
    let mut s = AppState::seed();
    let blocks = s.active().unwrap().blocks.len();
    s.active_mut().unwrap().input_buffer = "y".to_owned();
    s.submit_line("10:00".to_owned(), 1_000);
    assert_eq!(s.active().unwrap().blocks.len(), blocks);
    assert_eq!(s.active().unwrap().input_buffer, "");
    assert!(matches!(s.pending.last(), Some(PendingPty::SendRaw { id, bytes }) if id == "s1" && bytes == b"y\n"));

    s.mark_session_exited("s1");
    s.restart_session("s1");
    s.active_mut().unwrap().input_buffer = " ls ".to_owned();
    s.submit_line("10:01".to_owned(), 1_001);
    let b = s.active().unwrap().blocks.last().unwrap().clone();
    assert_eq!(b.cmd, "ls");
    assert_eq!(b.time, "10:01");
    assert_eq!(b.started_at_unix, 1_001);
    assert!(b.running);
    assert!(matches!(s.pending.last(), Some(PendingPty::Send { bytes, .. }) if bytes == b"ls\n"));
}
