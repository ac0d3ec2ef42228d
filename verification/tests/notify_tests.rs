use tanaterm::notify::{applescript_escape, notify_body, should_forward_ctrl, should_notify};

#[test]
fn should_forward_ctrl_truth_table() {
    // busy かつ非 focused_elsewhere の時のみ true。
    assert!(
        should_forward_ctrl(false, true),
        "busy かつフォーカス通常 → 転送する"
    );
    // idle 中は転送しない（idle zsh への EOF 誤送を防ぐ）。
    assert!(
        !should_forward_ctrl(false, false),
        "idle かつフォーカス通常 → 転送しない"
    );
    // 他ウィジェットにフォーカスがある時は転送しない。
    assert!(
        !should_forward_ctrl(true, true),
        "busy だが他ウィジェットにフォーカス → 転送しない"
    );
    assert!(
        !should_forward_ctrl(true, false),
        "idle かつ他ウィジェットにフォーカス → 転送しない"
    );
}

// ── 22: should_notify / applescript_escape テスト ─────────────────────

/// 通知発火条件の真理値表（22: 長時間コマンド完了通知）。
#[test]
fn should_notify_truth_table() {
    // 経過 15 秒以上かつ非フォーカス → 通知する。
    assert!(
        should_notify(15, false),
        "経過 15s・非フォーカス → 通知する"
    );
    assert!(
        should_notify(60, false),
        "経過 60s・非フォーカス → 通知する"
    );
    // 経過 14 秒以下 → 通知しない。
    assert!(!should_notify(14, false), "経過 14s → 通知しない");
    assert!(!should_notify(0, false), "経過 0s → 通知しない");
    // ウィンドウフォーカス中 → 通知しない（経過秒に関わらず）。
    assert!(
        !should_notify(15, true),
        "経過 15s でもフォーカス中 → 通知しない"
    );
    assert!(
        !should_notify(100, true),
        "経過 100s でもフォーカス中 → 通知しない"
    );
}

/// AppleScript エスケープ: `"` と `\` が正しくエスケープされる（22: インジェクション対策）。
#[test]
fn applescript_escape_handles_special_chars() {
    // 通常の文字列は変換なし。
    assert_eq!(applescript_escape("hello"), "hello");
    // ダブルクォートのエスケープ。
    assert_eq!(applescript_escape(r#"say "hi""#), r#"say \"hi\""#);
    // バックスラッシュのエスケープ。
    assert_eq!(applescript_escape(r"C:\tmp"), r"C:\\tmp");
    // 両方含む。
    assert_eq!(applescript_escape(r#"echo \"foo\""#), r#"echo \\\"foo\\\""#);
    // 日本語を含む文字列は ASCII 以外に変換なし。
    assert_eq!(
        applescript_escape("コマンド完了"),
        "コマンド完了",
        "日本語文字は変換しない"
    );
}

/// notify_body: コマンド名が 40 文字超の場合に切り詰める。
#[test]
fn notify_body_truncates_long_cmd() {
    let long_cmd = "a".repeat(50);
    let body = notify_body(&long_cmd, Some(0), 20);
    // 40 char 以下に切り詰められていること（"…" 分含む）。
    let cmd_part: String = long_cmd.chars().take(39).collect();
    assert!(
        body.contains(&format!("{cmd_part}…")),
        "40 文字超は切り詰められる: {body}"
    );
}

/// notify_body: exit code が含まれる形式を確認。
#[test]
fn notify_body_includes_exit_code_and_elapsed() {
    let body = notify_body("cargo build", Some(0), 30);
    assert!(body.contains("cargo build"), "cmd が含まれる: {body}");
    assert!(body.contains("exit 0"), "exit code が含まれる: {body}");
    assert!(body.contains("30s"), "経過時間が含まれる: {body}");
}

/// notify_body: exit code が None の場合。
#[test]
fn notify_body_without_exit_code() {
    let body = notify_body("long task", None, 120);
    assert!(body.contains("long task"), "cmd が含まれる: {body}");
    assert!(!body.contains("exit"), "exit code なし: {body}");
    assert!(body.contains("2m"), "経過時間が含まれる: {body}");
}
