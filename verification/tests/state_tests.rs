use tanaterm::config::Shell;
use tanaterm::state::{
    truncate_after_last_newline, AppState, Command, OutputColor, OutputSpan, PendingPty,
    PersistentSession, PersistentState, SessionStatus,
};
use tanaterm::term::TermAction;


fn fresh() -> AppState {
    AppState::seed()
}

#[test]
fn close_session_refuses_to_remove_last_one() {
    let mut s = fresh();
    let ids: Vec<String> = s.sessions.iter().map(|x| x.id.clone()).collect();
    // 最後の 1 つになるまで閉じる（それ以外は true を返す）。
    for id in &ids[..ids.len() - 1] {
        assert!(
            s.close_session(id),
            "最後以外の close_session は true を返す"
        );
    }
    assert_eq!(s.sessions.len(), 1, "下準備として 1 セッションになるはず");
    let last_id = s.sessions[0].id.clone();
    // 最後の 1 セッションは閉じない → false を返す（10: 戻り値の assert）。
    let result = s.close_session(&last_id);
    assert!(!result, "最後の 1 つを閉じようとすると false が返る");
    assert_eq!(s.sessions.len(), 1, "最後の 1 つは閉じられない");
    assert_eq!(s.ui.active_session_id.as_deref(), Some(last_id.as_str()));
}

#[test]
fn close_session_picks_neighbor_as_active() {
    let mut s = fresh();
    // active を s2 にして s2 を閉じると、削除位置にある旧 s3 がアクティブになる。
    s.focus_session("s2");
    let result = s.close_session("s2");
    assert!(result, "s2 を閉じると true を返す");
    assert_eq!(s.ui.active_session_id.as_deref(), Some("s3"));
}

#[test]
fn close_session_cancels_rename_for_removed_session() {
    let mut s = fresh();
    s.start_session_rename("s2");
    assert!(s.ui.rename_target.is_some());
    s.close_session("s2");
    assert!(
        s.ui.rename_target.is_none(),
        "削除対象の rename は破棄される"
    );
}

#[test]
fn step_history_walks_back_and_forward_then_clears() {
    let mut s = fresh();
    // seed の s1 は ["ls -la", "pnpm typecheck", "pnpm dev"]
    s.focus_session("s1");

    // ↑ 1 回 → 末尾 "pnpm dev"
    s.step_history(-1);
    assert_eq!(s.active().unwrap().input_buffer, "pnpm dev");
    // ↑ 1 回 → "pnpm typecheck"
    s.step_history(-1);
    assert_eq!(s.active().unwrap().input_buffer, "pnpm typecheck");
    // ↓ 1 回 → "pnpm dev"
    s.step_history(1);
    assert_eq!(s.active().unwrap().input_buffer, "pnpm dev");
    // ↓ もう 1 回 → 履歴を抜けて空
    s.step_history(1);
    assert_eq!(s.active().unwrap().input_buffer, "");
    assert!(s.active().unwrap().history_cursor.is_none());
}

#[test]
fn step_history_is_noop_on_empty_history() {
    let mut s = fresh();
    s.focus_session("s3"); // history が空のセッション
    s.step_history(-1);
    assert_eq!(s.active().unwrap().input_buffer, "");
    assert!(s.active().unwrap().history_cursor.is_none());
}

#[test]
fn commit_rename_applies_trimmed_buffer() {
    let mut s = fresh();
    s.start_session_rename("s5");
    s.ui.rename_buffer = "  renamed  ".into();
    s.commit_rename();
    let s5 = s.sessions.iter().find(|x| x.id == "s5").unwrap();
    assert_eq!(s5.name, "renamed", "trim される");
    assert!(s.ui.rename_target.is_none());
    assert_eq!(s.ui.rename_buffer, "");
}

#[test]
fn commit_rename_with_empty_buffer_is_noop_on_name() {
    let mut s = fresh();
    let original = s
        .sessions
        .iter()
        .find(|x| x.id == "s5")
        .unwrap()
        .name
        .clone();
    s.start_session_rename("s5");
    s.ui.rename_buffer = "   ".into();
    s.commit_rename();
    let s5 = s.sessions.iter().find(|x| x.id == "s5").unwrap();
    assert_eq!(s5.name, original, "空文字 rename は名前変更しない");
    assert!(s.ui.rename_target.is_none(), "rename 状態は閉じる");
}

#[test]
fn submit_input_does_not_duplicate_consecutive_history() {
    let mut s = fresh();
    s.focus_session("s3");
    if let Some(sess) = s.active_mut() {
        sess.input_buffer = "ls".into();
    }
    s.submit_input("12:00".into());
    if let Some(sess) = s.active_mut() {
        sess.input_buffer = "ls".into();
    }
    s.submit_input("12:01".into());
    // 履歴は "ls" 1 件のみ。
    assert_eq!(s.active().unwrap().history, vec!["ls".to_string()]);
    // ブロックは 2 つ追加される。
    assert_eq!(s.active().unwrap().blocks.len(), 2);
}

#[test]
fn push_pty_send_raw_queues_bytes_to_active_session() {
    let mut s = fresh();
    s.focus_session("s2");
    s.pending.clear();
    s.push_pty_send_raw(vec![0x03]);
    assert_eq!(
        s.pending.last(),
        Some(&PendingPty::SendRaw {
            id: "s2".into(),
            bytes: vec![0x03],
        })
    );
}

#[test]
fn push_pty_send_raw_is_noop_without_active_session() {
    let mut s = fresh();
    s.ui.active_session_id = None;
    s.pending.clear();
    s.push_pty_send_raw(vec![0x03]);
    assert!(s.pending.is_empty(), "アクティブ無しなら積まない");
}

#[test]
fn push_pty_send_raw_is_noop_for_empty_bytes() {
    let mut s = fresh();
    s.focus_session("s2");
    s.pending.clear();
    s.push_pty_send_raw(Vec::new());
    assert!(s.pending.is_empty(), "空バイト列は積まない");
}

#[test]
fn submit_input_as_stdin_sends_buffer_with_newline_via_send_raw() {
    let mut s = fresh();
    s.focus_session("s3");
    if let Some(sess) = s.active_mut() {
        sess.input_buffer = "y".into();
    }
    s.pending.clear();
    let before_block_count = s.active().unwrap().blocks.len();
    s.submit_input_as_stdin();
    // SendRaw で "y\n" が積まれる（Send ではない = on_submit 副作用なし）
    assert_eq!(
        s.pending.last(),
        Some(&PendingPty::SendRaw {
            id: "s3".into(),
            bytes: b"y\n".to_vec(),
        })
    );
    // 新規ブロックは積まれない
    assert_eq!(s.active().unwrap().blocks.len(), before_block_count);
    // input_buffer はクリアされる
    assert!(s.active().unwrap().input_buffer.is_empty());
}

#[test]
fn submit_input_as_stdin_sends_lone_newline_for_empty_buffer() {
    let mut s = fresh();
    s.focus_session("s3");
    s.pending.clear();
    s.submit_input_as_stdin();
    assert_eq!(
        s.pending.last(),
        Some(&PendingPty::SendRaw {
            id: "s3".into(),
            bytes: b"\n".to_vec(),
        })
    );
}

#[test]
fn submit_input_creates_running_block_and_queues_send() {
    let mut s = fresh();
    s.focus_session("s3");
    if let Some(sess) = s.active_mut() {
        sess.input_buffer = "ls -la".into();
    }
    s.pending.clear();
    s.submit_input("12:00".into());
    let block = s.active().unwrap().blocks.last().unwrap();
    assert!(block.running, "送信直後は実行中");
    assert_eq!(block.exit_code, None);
    assert_eq!(s.active().unwrap().status, SessionStatus::Busy);
    assert_eq!(
        s.pending.last(),
        Some(&PendingPty::Send {
            id: "s3".into(),
            bytes: b"ls -la\n".to_vec()
        })
    );
}

#[test]
fn submit_input_ignores_blank_input() {
    let mut s = fresh();
    s.focus_session("s3");
    if let Some(sess) = s.active_mut() {
        sess.input_buffer = "   ".into();
    }
    s.submit_input("12:00".into());
    assert!(s.active().unwrap().blocks.is_empty());
    assert!(s.active().unwrap().history.is_empty());
}

#[test]
fn apply_term_action_appends_and_ends_block() {
        let mut s = fresh();
    s.focus_session("s3");
    if let Some(sess) = s.active_mut() {
        sess.input_buffer = "echo hi".into();
    }
    s.submit_input("12:00".into());
    s.apply_term_action(
        "s3",
        TermAction::Append(vec![OutputSpan {
            color: OutputColor::Default,
            text: "hi\n".into(),
        }]),
    );
    s.apply_term_action("s3", TermAction::EndBlock { exit: Some(0) });
    let block = s.active().unwrap().blocks.last().unwrap();
    assert!(!block.running);
    assert_eq!(block.exit_code, Some(0));
    assert_eq!(block.output.len(), 1);
    assert_eq!(s.active().unwrap().status, SessionStatus::Live);
}

#[test]
fn apply_term_action_nonzero_exit_sets_err() {
        let mut s = fresh();
    s.focus_session("s3");
    if let Some(sess) = s.active_mut() {
        sess.input_buffer = "false".into();
    }
    s.submit_input("12:00".into());
    s.apply_term_action("s3", TermAction::EndBlock { exit: Some(1) });
    assert_eq!(s.active().unwrap().status, SessionStatus::Error);
    assert_eq!(
        s.active().unwrap().blocks.last().unwrap().exit_code,
        Some(1)
    );
}

#[test]
fn set_cwd_updates_display_and_real() {
    let mut s = fresh();
    s.focus_session("s3");
    // Paths under home are shown with `~`.
    let home = "/Users/me".to_string();
    s.home = Some(home.clone());
    s.apply_term_action("s3", TermAction::SetCwd(format!("{home}/work/x")));
    assert_eq!(s.active().unwrap().pwd, "~/work/x");
    assert_eq!(s.active().unwrap().cwd, Some(format!("{home}/work/x")));
}

#[test]
fn rename_focus_pending_is_set_once_per_start() {
    let mut s = fresh();
    s.start_session_rename("s5");
    assert!(s.ui.rename_focus_pending, "開始時に focus_pending が立つ");
    // 描画ループが消化済みのつもりで手動でクリアし、
    // commit/cancel 後にも立たないことを確認する。
    s.ui.rename_focus_pending = false;
    s.commit_rename();
    assert!(!s.ui.rename_focus_pending);

    s.start_session_rename("s5");
    assert!(s.ui.rename_focus_pending);
    s.cancel_rename();
    assert!(!s.ui.rename_focus_pending);
}

#[test]
fn shelf_rename_applies_to_label() {
    let mut s = fresh();
    s.start_shelf_rename("f1");
    assert!(s.is_renaming_shelf("f1"));
    assert!(!s.is_renaming_session("f1"));
    s.ui.rename_buffer = "  my-proj  ".into();
    s.commit_rename();
    let f1 = s.shelf.iter().find(|x| x.id == "f1").unwrap();
    assert_eq!(f1.label, "my-proj");
    assert!(s.ui.rename_target.is_none());
}

#[test]
fn record_recent_command_adds_and_dedups() {
    let mut s = fresh();
    let pinned_before = s.commands.iter().filter(|c| c.pinned).count();
    s.record_recent_command("npm test", 1000);
    let recent: Vec<&Command> = s
        .commands
        .iter()
        .filter(|c| !c.pinned && c.last_used.is_some())
        .collect();
    assert_eq!(recent.len(), 1);
    assert_eq!(recent[0].cmd, "npm test");
    assert_eq!(recent[0].last_used, Some(1000));

    // 同じ cmd を再実行すると新規追加せず last_used を更新する。
    s.record_recent_command("npm test", 2000);
    let recent_after = s
        .commands
        .iter()
        .filter(|c| !c.pinned && c.last_used.is_some())
        .count();
    assert_eq!(recent_after, 1, "重複は作らない");
    let c = s.commands.iter().find(|c| c.cmd == "npm test").unwrap();
    assert_eq!(c.last_used, Some(2000));
    assert_eq!(c.uses, 2);
    // pinned 件数は変わらない。
    assert_eq!(
        s.commands.iter().filter(|c| c.pinned).count(),
        pinned_before
    );
}

#[test]
fn record_recent_command_bumps_existing_pinned() {
    let mut s = fresh();
    // seed の pinned コマンド "df -h" を実行 → 新規 recent は作らず last_used 更新。
    let recent_before = s.commands.iter().filter(|c| !c.pinned).count();
    s.record_recent_command("df -h", 5000);
    assert_eq!(
        s.commands.iter().filter(|c| !c.pinned).count(),
        recent_before
    );
    let c = s.commands.iter().find(|c| c.cmd == "df -h").unwrap();
    assert!(c.pinned, "pinned のまま");
    assert_eq!(c.last_used, Some(5000));
}

#[test]
fn submit_input_records_recent_command() {
    let mut s = fresh();
    s.focus_session("s3");
    if let Some(sess) = s.active_mut() {
        sess.input_buffer = "echo hi".into();
    }
    s.submit_input("12:00".into());
    assert!(
        s.commands.iter().any(|c| c.cmd == "echo hi" && !c.pinned),
        "実行コマンドが recent に記録される"
    );
}

#[test]
fn remove_shelf_deletes_item() {
    let mut s = fresh();
    let before = s.shelf.len();
    assert!(s.shelf.iter().any(|x| x.id == "f1"));
    s.remove_shelf("f1");
    assert_eq!(s.shelf.len(), before - 1);
    assert!(!s.shelf.iter().any(|x| x.id == "f1"));
}

#[test]
fn remove_shelf_cancels_rename_for_removed_item() {
    let mut s = fresh();
    s.start_shelf_rename("f1");
    assert!(s.ui.rename_target.is_some());
    s.remove_shelf("f1");
    assert!(
        s.ui.rename_target.is_none(),
        "削除対象の rename は破棄される"
    );
}

#[test]
fn commit_command_add_appends_pinned_command() {
    let mut s = fresh();
    s.start_command_add();
    s.ui.command_add_cmd = "  git status  ".into();
    s.ui.command_add_desc = "  working tree  ".into();
    s.commit_command_add();
    let added = s.commands.last().unwrap();
    assert_eq!(added.cmd, "git status", "trim される");
    assert_eq!(added.desc.as_deref(), Some("working tree"));
    assert!(added.pinned, "手動追加は pinned");
    assert!(!s.ui.command_add_active);
}

#[test]
fn commit_command_add_ignores_empty_cmd() {
    let mut s = fresh();
    let before = s.commands.len();
    s.start_command_add();
    s.ui.command_add_cmd = "   ".into();
    s.commit_command_add();
    assert_eq!(s.commands.len(), before, "空 cmd は追加されない");
    assert!(!s.ui.command_add_active);
}

#[test]
fn command_rename_updates_cmd_string() {
    let mut s = fresh();
    s.start_command_rename("c1");
    assert!(s.is_renaming_command("c1"));
    s.ui.rename_buffer = "  df -h --total  ".into();
    s.commit_rename();
    let c1 = s.commands.iter().find(|c| c.id == "c1").unwrap();
    assert_eq!(c1.cmd, "df -h --total");
}

#[test]
fn persistent_roundtrip_preserves_added_command() {
    let mut s = fresh();
    s.start_command_add();
    s.ui.command_add_cmd = "my custom cmd".into();
    s.commit_command_add();
    let added_id = s.commands.last().unwrap().id.clone();

    let restored = AppState::from_persistent(s.to_persistent());
    let found = restored.commands.iter().find(|c| c.id == added_id);
    assert!(found.is_some(), "追加 command が再起動後も残る");
    assert_eq!(found.unwrap().cmd, "my custom cmd");
}

#[test]
fn persistent_roundtrip_preserves_sessions_and_ui() {
    let mut s = fresh();
    s.focus_session("s2");
    s.ui.rail_left_visible = false;
    s.ui.shell = Shell::Bash;
    // seed は c1..c6 が pin 済み。c1 を未 pin に倒して往復を確認（c2 は pin 維持）。
    s.commands.iter_mut().find(|c| c.id == "c1").unwrap().pinned = false;

    let restored = AppState::from_persistent(s.to_persistent());

    let ids: Vec<&str> = restored.sessions.iter().map(|s| s.id.as_str()).collect();
    assert_eq!(ids, vec!["s1", "s2", "s3", "s4", "s5"]);
    assert_eq!(restored.ui.active_session_id.as_deref(), Some("s2"));
    assert!(!restored.ui.rail_left_visible);
    assert_eq!(restored.ui.shell, Shell::Bash);
    // pin 状態が往復する。
    assert!(
        !restored
            .commands
            .iter()
            .find(|c| c.id == "c1")
            .unwrap()
            .pinned
    );
    assert!(
        restored
            .commands
            .iter()
            .find(|c| c.id == "c2")
            .unwrap()
            .pinned
    );
    // blocks は復元しない（実行時データ）。
    assert!(restored.sessions.iter().all(|s| s.blocks.is_empty()));
    // 各セッションの PTY 起動が積まれる。
    assert_eq!(restored.pending.len(), 5);
    assert!(restored
        .pending
        .iter()
        .all(|p| matches!(p, PendingPty::Spawn { .. })));
}

#[test]
fn from_persistent_empty_falls_back_to_single_session() {
    let p = PersistentState {
        shell: Shell::Bash,
        ..Default::default()
    };
    let restored = AppState::from_persistent(p);
    assert_eq!(restored.sessions.len(), 1);
    assert_eq!(restored.ui.shell, Shell::Bash);
}

#[test]
fn from_persistent_advances_next_id_past_restored_ids() {
    let p = PersistentState {
        sessions: vec![PersistentSession {
            id: "s150".into(),
            name: "old".into(),
            pwd: "~/".into(),
            pinned: false,
        }],
        ..Default::default()
    };
    let mut restored = AppState::from_persistent(p);
    // 復元 id (150) と衝突しない採番になる。
    let new_id = restored.new_session("x", "~/");
    let suffix: u64 = new_id.trim_start_matches('s').parse().unwrap();
    assert!(suffix > 150, "新規 id {new_id} は復元 id を超える");
}

#[test]
fn add_active_to_shelf_appends_with_label() {
    let mut s = fresh();
    s.focus_session("s1"); // pwd = ~/work/tanaterm
    let before = s.shelf.len();
    s.add_active_to_shelf();
    assert_eq!(s.shelf.len(), before + 1);
    assert_eq!(s.shelf.last().unwrap().label, "tanaterm");
    assert_eq!(s.shelf.last().unwrap().path, "~/work/tanaterm");
}

// ── 04: truncate_after_last_newline テスト ─────────────────────────────────

/// 複数 span に \n が含まれる場合、最後の \n 直後まで残してそれ以降を削る。
#[test]
fn truncate_after_last_newline_multi_span() {
        let mut output = vec![
        OutputSpan {
            color: OutputColor::Default,
            text: "x\n".to_string(),
        },
        OutputSpan {
            color: OutputColor::Default,
            text: "y".to_string(),
        },
    ];
    truncate_after_last_newline(&mut output);
    // "x\n" までが残り "y" は削除される。
    assert_eq!(output.len(), 1);
    assert_eq!(output[0].text, "x\n");
}

/// 単一 span で \n なし → output 全体クリア。
#[test]
fn truncate_after_last_newline_no_newline_clears() {
        let mut output = vec![OutputSpan {
        color: OutputColor::Default,
        text: "abc".to_string(),
    }];
    truncate_after_last_newline(&mut output);
    assert!(output.is_empty(), "\\n なし → output クリア");
}

/// span 内の最後の \n 直後で切り詰める（span 途中の \n）。
#[test]
fn truncate_after_last_newline_cuts_within_span() {
        let mut output = vec![OutputSpan {
        color: OutputColor::Default,
        text: "line1\nline2".to_string(),
    }];
    truncate_after_last_newline(&mut output);
    // "line1\n" まで残る。
    assert_eq!(output[0].text, "line1\n");
}

// ── 04: OverwriteLine state テスト ────────────────────────────────────────

/// 実行中ブロック出力が "x\ny" で OverwriteLine → "x\n" になる。
#[test]
fn apply_term_action_overwrite_line() {
        let mut s = fresh();
    s.focus_session("s3");
    if let Some(sess) = s.active_mut() {
        sess.input_buffer = "echo".into();
    }
    s.submit_input("12:00".into());
    s.apply_term_action(
        "s3",
        TermAction::Append(vec![
            OutputSpan {
                color: OutputColor::Default,
                text: "x\n".into(),
            },
            OutputSpan {
                color: OutputColor::Default,
                text: "y".into(),
            },
        ]),
    );
    s.apply_term_action("s3", TermAction::OverwriteLine);
    let block = s.active().unwrap().blocks.last().unwrap();
    let text: String = block.output.iter().map(|sp| sp.text.as_str()).collect();
    assert_eq!(text, "x\n", "OverwriteLine 後は 'x\\n' のみ残る");
}

// ── 05: AppendDetached state テスト ───────────────────────────────────────

/// ブロックが存在する時に AppendDetached が最終ブロックへ Dim で追記される。
#[test]
fn apply_term_action_append_detached_to_last_block() {
        let mut s = fresh();
    s.focus_session("s3");
    if let Some(sess) = s.active_mut() {
        sess.input_buffer = "sleep 5 &".into();
    }
    s.submit_input("12:00".into());
    // ブロックを完了状態にする。
    s.apply_term_action("s3", TermAction::EndBlock { exit: Some(0) });
    // AppendDetached を適用する。
    s.apply_term_action(
        "s3",
        TermAction::AppendDetached(vec![OutputSpan {
            color: OutputColor::Dim,
            text: "[1]  + done sleep 5\n".into(),
        }]),
    );
    let block = s.active().unwrap().blocks.last().unwrap();
    let text: String = block.output.iter().map(|sp| sp.text.as_str()).collect();
    assert!(
        text.contains("[1]  + done sleep 5"),
        "AppendDetached が最終ブロックへ追記される: {text:?}",
    );
    // Dim 色であること。
    assert!(
        block
            .output
            .last()
            .is_some_and(|sp| sp.color == OutputColor::Dim),
        "AppendDetached は Dim 色: {:?}",
        block.output.last(),
    );
}

/// ブロック 0 件では AppendDetached が何もしない。
#[test]
fn apply_term_action_append_detached_no_blocks_noop() {
        let mut s = fresh();
    s.focus_session("s3"); // s3 は blocks: Vec::new()
    let block_count = s.active().unwrap().blocks.len();
    s.apply_term_action(
        "s3",
        TermAction::AppendDetached(vec![OutputSpan {
            color: OutputColor::Dim,
            text: "orphan\n".into(),
        }]),
    );
    assert_eq!(
        s.active().unwrap().blocks.len(),
        block_count,
        "ブロック 0 件では何も起きない",
    );
}

// ── 08: shell_exited / restart_session テスト ─────────────────────────────

/// `mark_session_exited` 後の `submit_input` は no-op（幽霊 running ブロック防止）。
#[test]
fn submit_input_is_noop_after_shell_exited() {
    let mut s = fresh();
    s.focus_session("s3");
    s.mark_session_exited("s3");
    let blocks_before = s.active().unwrap().blocks.len();
    s.pending.clear();
    if let Some(sess) = s.active_mut() {
        sess.input_buffer = "ls".into();
    }
    s.submit_input("12:00".into());
    assert_eq!(
        s.active().unwrap().blocks.len(),
        blocks_before,
        "shell_exited 中は新規ブロックを積まない"
    );
    assert!(s.pending.is_empty(), "shell_exited 中は pending も積まない");
}

/// `mark_session_exited` 後の `submit_input_as_stdin` は no-op。
#[test]
fn submit_input_as_stdin_is_noop_after_shell_exited() {
    let mut s = fresh();
    s.focus_session("s3");
    s.mark_session_exited("s3");
    s.pending.clear();
    if let Some(sess) = s.active_mut() {
        sess.input_buffer = "y".into();
    }
    s.submit_input_as_stdin();
    assert!(s.pending.is_empty(), "shell_exited 中は SendRaw も積まない");
}

/// `mark_session_exited` 後の `push_pty_send_raw` は no-op。
#[test]
fn push_pty_send_raw_is_noop_after_shell_exited() {
    let mut s = fresh();
    s.focus_session("s3");
    s.mark_session_exited("s3");
    s.pending.clear();
    s.push_pty_send_raw(vec![0x03]);
    assert!(s.pending.is_empty(), "shell_exited 中は SendRaw も積まない");
}

/// `restart_session` で `shell_exited` が false に戻り、`PendingPty::Spawn` が積まれ、
/// status が Live になること。
#[test]
fn restart_session_resets_state_and_queues_spawn() {
    let mut s = fresh();
    s.focus_session("s3");
    s.mark_session_exited("s3");
    assert!(s.active().unwrap().shell_exited, "終了済み状態になっている");
    assert_eq!(s.active().unwrap().status, SessionStatus::Idle);
    s.pending.clear();
    s.restart_session("s3");
    assert!(
        !s.active().unwrap().shell_exited,
        "restart で shell_exited が false に戻る"
    );
    assert_eq!(
        s.active().unwrap().status,
        SessionStatus::Live,
        "restart で status が Live になる"
    );
    assert_eq!(s.pending.len(), 1, "Spawn が 1 件積まれる");
    assert!(
        matches!(s.pending[0], PendingPty::Spawn { ref id, .. } if id == "s3"),
        "積まれる PendingPty は Spawn"
    );
}

// ── 07: AltScreen state テスト ────────────────────────────────────────────

/// AltScreen(true) 中の Append が無視される。
#[test]
fn apply_term_action_alt_screen_suppresses_append() {
        let mut s = fresh();
    s.focus_session("s3");
    if let Some(sess) = s.active_mut() {
        sess.input_buffer = "vim".into();
    }
    s.submit_input("12:00".into());
    // AltScreen に入る。
    s.apply_term_action("s3", TermAction::AltScreen(true));
    // この Append は無視されるはず。
    s.apply_term_action(
        "s3",
        TermAction::Append(vec![OutputSpan {
            color: OutputColor::Default,
            text: "vim output".into(),
        }]),
    );
    let block = s.active().unwrap().blocks.last().unwrap();
    assert!(
        block.output.is_empty(),
        "AltScreen 中は Append が無視される"
    );

    // AltScreen(false) で解除後は Append が届く。
    s.apply_term_action("s3", TermAction::AltScreen(false));
    s.apply_term_action(
        "s3",
        TermAction::Append(vec![OutputSpan {
            color: OutputColor::Default,
            text: "after vim".into(),
        }]),
    );
    let block = s.active().unwrap().blocks.last().unwrap();
    let text: String = block.output.iter().map(|sp| sp.text.as_str()).collect();
    assert_eq!(text, "after vim", "AltScreen 解除後は Append が届く");
}

/// EndBlock で alt_screen が false に戻る。
#[test]
fn apply_term_action_end_block_resets_alt_screen() {
        let mut s = fresh();
    s.focus_session("s3");
    if let Some(sess) = s.active_mut() {
        sess.input_buffer = "vim".into();
    }
    s.submit_input("12:00".into());
    s.apply_term_action("s3", TermAction::AltScreen(true));
    assert!(
        s.active().unwrap().alt_screen,
        "AltScreen true にセットされる"
    );
    s.apply_term_action("s3", TermAction::EndBlock { exit: Some(0) });
    assert!(
        !s.active().unwrap().alt_screen,
        "EndBlock で alt_screen が false に戻る"
    );
}
