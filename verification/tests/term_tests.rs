use tanaterm::state::{AppState, OutputColor, OutputSpan};
use tanaterm::term::osc::{BlockEvent, OscScanner};
use tanaterm::term::session::{prompt_split, SessionTerm, TermAction};
use tanaterm::term::sgr::{SgrConverter, SgrEvent};


fn outputs(events: &[BlockEvent]) -> Vec<u8> {
    events
        .iter()
        .filter_map(|e| match e {
            BlockEvent::Output(b) => Some(b.clone()),
            _ => None,
        })
        .flatten()
        .collect()
}

#[test]
fn scanner_extracts_osc133_and_keeps_output() {
    let mut s = OscScanner::new();
    // C ; "hi" ; D;0
    let input = b"\x1b]133;C\x07hi\x1b]133;D;0\x07";
    let ev = s.process(input);
    assert_eq!(ev[0], BlockEvent::CommandStart);
    assert_eq!(ev[1], BlockEvent::Output(b"hi".to_vec()));
    assert_eq!(ev[2], BlockEvent::CommandEnd { exit: Some(0) });
}

#[test]
fn scanner_handles_st_terminator() {
    let mut s = OscScanner::new();
    let input = b"\x1b]133;A\x1b\\done";
    let ev = s.process(input);
    assert_eq!(ev[0], BlockEvent::PromptStart);
    assert_eq!(outputs(&ev), b"done");
}

#[test]
fn scanner_survives_split_across_chunks() {
    let mut s = OscScanner::new();
    let mut ev = s.process(b"\x1b]133");
    ev.extend(s.process(b";D;1\x07tail"));
    assert!(ev.contains(&BlockEvent::CommandEnd { exit: Some(1) }));
    assert_eq!(outputs(&ev), b"tail");
}

#[test]
fn scanner_keeps_sgr_in_output() {
    let mut s = OscScanner::new();
    // SGR (CSI) は剥がさず Output に残す。
    let ev = s.process(b"\x1b[31mred\x1b[0m");
    assert_eq!(outputs(&ev), b"\x1b[31mred\x1b[0m");
}

#[test]
fn scanner_parses_osc7_cwd() {
    let mut s = OscScanner::new();
    let ev = s.process(b"\x1b]7;file://host/Users/me/work\x07");
    assert_eq!(ev[0], BlockEvent::Cwd("/Users/me/work".into()));
}

#[test]
fn osc7_percent_decode() {
    let mut s = OscScanner::new();
    let ev = s.process(b"\x1b]7;file://host/a%20b\x07");
    assert_eq!(ev[0], BlockEvent::Cwd("/a b".into()));
}

// ── 03: ESC ESC ] で OSC を取りこぼさないことを確認するテスト ────────────

/// ESC ESC ] 133;C BEL の並びで CommandStart が得られ、Output には ESC 1 個だけが残る。
#[test]
fn scanner_esc_esc_osc_is_not_dropped() {
    let mut s = OscScanner::new();
    let ev = s.process(b"\x1b\x1b]133;C\x07");
    // CommandStart が含まれる。
    assert!(
        ev.contains(&BlockEvent::CommandStart),
        "CommandStart が得られること: {ev:?}",
    );
    // Output には先行 ESC 1 個だけが残る（2 個は残らない）。
    let out = outputs(&ev);
    assert_eq!(out, b"\x1b", "Output には ESC 1 個: {out:?}");
}

#[test]
fn sgr_converts_colors() {
    let mut c = SgrConverter::new();
    let events = c.convert(b"\x1b[32mok\x1b[0m done");
    let spans: Vec<_> = events
        .into_iter()
        .filter_map(|e| match e {
            SgrEvent::Spans(s) => Some(s),
            _ => None,
        })
        .flatten()
        .collect();
    assert_eq!(spans[0].color, OutputColor::Sage);
    assert_eq!(spans[0].text, "ok");
    assert_eq!(spans[1].color, OutputColor::Default);
    assert_eq!(spans[1].text, " done");
}

/// CRLF は \n だけに畳まれ、CarriageReturn イベントは発行されない。
#[test]
fn sgr_drops_carriage_return() {
    let mut c = SgrConverter::new();
    let events = c.convert(b"line\r\nnext");
    // CarriageReturn が出ないこと。
    assert!(
        !events.iter().any(|e| matches!(e, SgrEvent::CarriageReturn)),
        "CRLF は CarriageReturn を出さない: {events:?}",
    );
    let text: String = events
        .iter()
        .filter_map(|e| match e {
            SgrEvent::Spans(spans) => {
                Some(spans.iter().map(|s| s.text.as_str()).collect::<String>())
            }
            _ => None,
        })
        .collect();
    assert_eq!(text, "line\nnext");
}

#[test]
fn sgr_color_persists_across_calls() {
    let mut c = SgrConverter::new();
    let _ = c.convert(b"\x1b[31m");
    let events = c.convert(b"still red");
    let spans: Vec<_> = events
        .into_iter()
        .filter_map(|e| match e {
            SgrEvent::Spans(s) => Some(s),
            _ => None,
        })
        .flatten()
        .collect();
    assert_eq!(spans[0].color, OutputColor::Rust);
}

#[test]
fn sgr_skips_non_sgr_csi() {
    let mut c = SgrConverter::new();
    // カーソル移動 CSI(H) は読み飛ばし、テキストだけ残る。
    let events = c.convert(b"a\x1b[2Jb");
    let text: String = events
        .iter()
        .filter_map(|e| match e {
            SgrEvent::Spans(spans) => {
                Some(spans.iter().map(|s| s.text.as_str()).collect::<String>())
            }
            _ => None,
        })
        .collect();
    assert_eq!(text, "ab");
}

#[test]
fn prompt_split_finds_second_line_prompt() {
    // 1 行目は出力本体、2 行目がプロンプト → 2 行目開始位置で区切る。
    let raw = b"hello\n$ ";
    assert_eq!(prompt_split(raw), Some(6));
    // プロンプトがなければ None。
    assert_eq!(prompt_split(b"line1\nline2"), None);
    // 先頭行がプロンプト風でも区切らない（出力本体扱い）。
    assert_eq!(prompt_split(b"$ still output"), None);
    // `echo $VAR` のような行頭でない $ は誤検出しない。
    assert_eq!(prompt_split(b"out\necho $VAR"), None);
}

#[test]
fn session_term_osc133_flow_drops_echo_and_captures_output() {
    let mut t = SessionTerm::new();
    t.on_submit("");
    // echo "ls" → C → "file\n" → D;0
    let actions = t.feed(b"ls\r\n\x1b]133;C\x07file\n\x1b]133;D;0\x07");
    // C の手前で Auto 取り込みしたエコーは ClearOutput で捨てられる。
    assert!(actions.contains(&TermAction::ClearOutput));
    assert!(actions
        .iter()
        .any(|a| matches!(a, TermAction::EndBlock { exit: Some(0) })));
    // 出力に "file" が含まれる。
    let appended: String = actions
        .iter()
        .filter_map(|a| match a {
            TermAction::Append(spans) => Some(spans.iter().map(|s| s.text.clone()).collect()),
            _ => None,
        })
        .collect::<Vec<String>>()
        .join("");
    assert!(appended.contains("file"));
}

#[test]
fn session_term_heuristic_ends_on_prompt_line() {
    let mut t = SessionTerm::new();
    t.on_submit(""); // Auto モード（OSC 133 未観測）
    let actions = t.feed(b"output line\n$ ");
    assert!(actions
        .iter()
        .any(|a| matches!(a, TermAction::EndBlock { exit: None })));
}

/// 「初回コマンドが実行されない」回帰防止。
///
/// シェル起動直後の初回 `precmd` で OSC 133;D;0, A, OSC 7 が出る。これは
/// 「次のプロンプトの前奏」であり、ユーザーコマンドの終端ではない。
/// `on_submit` で `in_command=true` (Auto) になった直後にこの D を受け取っても、
/// EndBlock を発火させず、ClearOutput で先取りを捨てて C を待つこと。
///
/// 元の実装では Auto モードでも D で EndBlock していたため、初回コマンドの
/// 実 PTY 結果が「running ブロックなし」状態で全部捨てられていた。
#[test]
fn session_term_initial_precmd_d_does_not_close_user_block() {
    let mut t = SessionTerm::new();
    t.on_submit(""); // Auto モード, in_command=true

    // シェル初回 precmd: D;0 → A → OSC 7、続いて echo "ls", C, "out\n", D;0
    let raw = b"\x1b]133;D;0\x07\x1b]133;A\x07\x1b]7;file://h/tmp\x07ls\r\n\x1b]133;C\x07out\n\x1b]133;D;0\x07";
    let actions = t.feed(raw);

    // 初回 D で EndBlock(exit=0) してはいけない（その後 EndBlock 1 回は OK）。
    let end_blocks: Vec<_> = actions
        .iter()
        .filter(|a| matches!(a, TermAction::EndBlock { .. }))
        .collect();
    assert_eq!(
        end_blocks.len(),
        1,
        "EndBlock は最後の D だけで 1 回のみ発火する: {actions:?}",
    );
    // 初回 D の代わりに ClearOutput で先取りを捨てている。
    assert!(actions.contains(&TermAction::ClearOutput));
    // 実 ls 出力 "out" は Append されている。
    let appended: String = actions
        .iter()
        .filter_map(|a| match a {
            TermAction::Append(spans) => Some(spans.iter().map(|s| s.text.clone()).collect()),
            _ => None,
        })
        .collect::<Vec<String>>()
        .join("");
    assert!(
        appended.contains("out"),
        "ls 出力が block に届く: appended={appended:?}",
    );
}

/// Auto モードで A（PromptStart）だけ先に来た場合も同様に EndBlock せず、
/// ClearOutput + Osc133 確定の合図として扱うこと。
#[test]
fn session_term_initial_prompt_a_does_not_close_user_block() {
    let mut t = SessionTerm::new();
    t.on_submit("");
    let actions = t.feed(b"\x1b]133;A\x07");
    assert!(
        !actions
            .iter()
            .any(|a| matches!(a, TermAction::EndBlock { .. })),
        "EndBlock してはいけない: {actions:?}",
    );
    assert!(actions.contains(&TermAction::ClearOutput));
}

// ── 01: UTF-8 チャンク境界文字化け修正テスト ──────────────────────────────

/// `SgrEvent` 列からテキストを結合するヘルパ（テスト用）。
fn events_text(events: &[SgrEvent]) -> String {
    events
        .iter()
        .filter_map(|e| match e {
            SgrEvent::Spans(spans) => {
                Some(spans.iter().map(|s| s.text.as_str()).collect::<String>())
            }
            _ => None,
        })
        .collect()
}

/// `SgrEvent` 列から spans を平坦化するヘルパ（テスト用）。
fn events_spans(events: Vec<SgrEvent>) -> Vec<OutputSpan> {
    events
        .into_iter()
        .filter_map(|e| match e {
            SgrEvent::Spans(s) => Some(s),
            _ => None,
        })
        .flatten()
        .collect()
}

/// 「こんにちは」を 1 バイト目直後で 2 チャンクに分断しても文字化けしない。
#[test]
fn sgr_utf8_split_after_first_byte() {
    let mut c = SgrConverter::new();
    // "こ" = 0xe3 0x81 0x93。1 バイト目（0xe3）だけ先に届く。
    let konnnichiwa = "こんにちは".as_bytes();
    let (first, rest) = konnnichiwa.split_at(1);
    let s1 = c.convert(first);
    let s2 = c.convert(rest);
    let text: String = s1
        .iter()
        .chain(s2.iter())
        .filter_map(|e| match e {
            SgrEvent::Spans(spans) => {
                Some(spans.iter().map(|s| s.text.as_str()).collect::<String>())
            }
            _ => None,
        })
        .collect();
    assert!(
        !text.contains('\u{FFFD}'),
        "置換文字が含まれてはいけない: {text:?}",
    );
    assert_eq!(text, "こんにちは");
}

/// 「こんにちは」を 2 バイト目直後で 2 チャンクに分断しても文字化けしない。
#[test]
fn sgr_utf8_split_after_second_byte() {
    let mut c = SgrConverter::new();
    // "こ" = 0xe3 0x81 0x93。2 バイト目（0x81）まで先に届く。
    let konnnichiwa = "こんにちは".as_bytes();
    let (first, rest) = konnnichiwa.split_at(2);
    let s1 = c.convert(first);
    let s2 = c.convert(rest);
    let text: String = s1
        .iter()
        .chain(s2.iter())
        .filter_map(|e| match e {
            SgrEvent::Spans(spans) => {
                Some(spans.iter().map(|s| s.text.as_str()).collect::<String>())
            }
            _ => None,
        })
        .collect();
    assert!(
        !text.contains('\u{FFFD}'),
        "置換文字が含まれてはいけない: {text:?}",
    );
    assert_eq!(text, "こんにちは");
}

/// 単独の不正バイト（0xff）は置換文字になる。
#[test]
fn sgr_invalid_byte_becomes_replacement_char() {
    let mut c = SgrConverter::new();
    let events = c.convert(b"\xff");
    // convert() の末尾では partial flush するが、0xff は error_len=Some(1) なので
    // 即座に FFFD に変換される。
    let text = events_text(&events);
    assert_eq!(text, "\u{FFFD}");
}

/// reset() 後に保持バイトが持ち越されない。
#[test]
fn sgr_reset_clears_pending_bytes() {
    let mut c = SgrConverter::new();
    // "こ" の 1 バイト目だけ渡す（pending に残る）。
    let _ = c.convert(&"こ".as_bytes()[..1]);
    // reset() で pending を破棄する。
    c.reset();
    // reset 後に残りバイトを渡しても前の未確定バイトとは連結されず独立して処理される。
    // "こ" の 2〜3 バイト目（0x81 0x93）は 1 バイト目なしでは不正 → FFFD になる。
    // 各バイトが個別に不正となるため FFFD が 1 個以上出る。
    let events = c.convert(&"こ".as_bytes()[1..]);
    let text = events_text(&events);
    assert!(
        text.chars().all(|ch| ch == '\u{FFFD}') && !text.is_empty(),
        "reset 後は前の pending が持ち越されず不正バイト扱いになる: {text:?}",
    );
}

// ── 02: CSI 中間バイト誤終端修正テスト ────────────────────────────────────

/// DECSCUSR (ESC [ 0 SP q) の SP（中間バイト）で打ち切られ、`q` が混入しないこと。
#[test]
fn sgr_csi_intermediate_byte_not_output() {
    let mut c = SgrConverter::new();
    let events = c.convert(b"a\x1b[0 qb");
    let text = events_text(&events);
    assert_eq!(text, "ab", "q が出力に混入してはいけない: {text:?}");
}

/// 中間バイト付きの `ESC [ 1 SP m` は SGR として解釈されず、色が変わらないこと。
#[test]
fn sgr_csi_intermediate_m_not_treated_as_sgr() {
    let mut c = SgrConverter::new();
    // 最初に赤にする。
    let _ = c.convert(b"\x1b[31m");
    // 中間バイト付き `ESC [ 1 SP m` を送る（SGR 扱いされれば bold 色になるが、無視されるはず）。
    let events = c.convert(b"\x1b[1 m x");
    let spans = events_spans(events);
    // 色はリセットされず Rust のまま。
    let text: String = spans.iter().map(|s| s.text.as_str()).collect();
    assert!(text.contains('x'), "テキスト 'x' が含まれる: {text:?}");
    // 最後の span の色が Rust であること（中間バイト付き m で色変更されていない）。
    let last_color = spans.last().map(|s| s.color);
    assert_eq!(
        last_color,
        Some(OutputColor::Rust),
        "中間バイト付き m は SGR 扱いしない: {spans:?}",
    );
}

// ── 04: \r 上書き（CarriageReturn）テスト ─────────────────────────────────

/// `convert(b"ab\rcd")` → Spans("ab"), CarriageReturn, Spans("cd") の順。
#[test]
fn sgr_cr_emits_carriage_return_event() {
    let mut c = SgrConverter::new();
    let events = c.convert(b"ab\rcd");
    // 先頭が Spans("ab")、次が CarriageReturn、最後が Spans("cd")。
    assert!(
        matches!(&events[0], SgrEvent::Spans(s) if s[0].text == "ab"),
        "先頭 Spans(ab): {events:?}",
    );
    assert!(
        matches!(&events[1], SgrEvent::CarriageReturn),
        "CarriageReturn: {events:?}",
    );
    assert!(
        matches!(&events[2], SgrEvent::Spans(s) if s[0].text == "cd"),
        "末尾 Spans(cd): {events:?}",
    );
}

/// `convert(b"ab\r\ncd")` → CRLF は改行に畳まれ CarriageReturn が出ないこと。
#[test]
fn sgr_crlf_no_carriage_return() {
    let mut c = SgrConverter::new();
    let events = c.convert(b"ab\r\ncd");
    assert!(
        !events.iter().any(|e| matches!(e, SgrEvent::CarriageReturn)),
        "CRLF では CarriageReturn を出さない: {events:?}",
    );
    let text = events_text(&events);
    assert_eq!(text, "ab\ncd");
}

/// チャンク末尾 `\r` → 次が `\n`（CRLF）の場合、CarriageReturn が出ない。
#[test]
fn sgr_cr_pending_then_lf_is_crlf() {
    let mut c = SgrConverter::new();
    let e1 = c.convert(b"ab\r");
    let e2 = c.convert(b"\ncd");
    // e1 は Spans("ab") だけ（\r は次チャンクへ持ち越し）。
    assert!(
        !e1.iter().any(|e| matches!(e, SgrEvent::CarriageReturn)),
        "持ち越し CR で CarriageReturn を出さない: {e1:?}",
    );
    // e2 では CRLF → LF として取り込み、CarriageReturn なし。
    assert!(
        !e2.iter().any(|e| matches!(e, SgrEvent::CarriageReturn)),
        "次チャンク先頭が LF → CRLF 扱い: {e2:?}",
    );
    let text: String = e1
        .iter()
        .chain(e2.iter())
        .filter_map(|e| match e {
            SgrEvent::Spans(s) => Some(s.iter().map(|sp| sp.text.as_str()).collect::<String>()),
            _ => None,
        })
        .collect();
    assert_eq!(text, "ab\ncd");
}

/// チャンク末尾 `\r` → 次が `\n` でない場合、CarriageReturn が先に発行される。
#[test]
fn sgr_cr_pending_then_non_lf_emits_cr() {
    let mut c = SgrConverter::new();
    let e1 = c.convert(b"ab\r");
    let e2 = c.convert(b"cd");
    // e1 は Spans("ab") のみ。
    assert_eq!(events_text(&e1), "ab");
    // e2 では CarriageReturn が先に出てから Spans("cd")。
    assert!(
        e2.iter().any(|e| matches!(e, SgrEvent::CarriageReturn)),
        "次チャンクが非 LF → CarriageReturn: {e2:?}",
    );
    assert_eq!(events_text(&e2), "cd");
}

/// `SessionTerm` に `"50%\r100%"` を流すと最終 Append テキストが `"100%"` になる e2e テスト。
#[test]
fn session_term_progress_bar_overwrite() {
    let mut t = SessionTerm::new();
    t.on_submit("test");
    // C → "50%\r100%" → D;0
    let actions = t.feed(b"\x1b]133;C\x07 50%\r100%\x1b]133;D;0\x07");
    // OverwriteLine が発行されている。
    assert!(
        actions
            .iter()
            .any(|a| matches!(a, TermAction::OverwriteLine)),
        "OverwriteLine が発行される: {actions:?}",
    );
    // Append("100%") が含まれている。
    let appended: String = actions
        .iter()
        .filter_map(|a| match a {
            TermAction::Append(spans) => {
                Some(spans.iter().map(|s| s.text.as_str()).collect::<String>())
            }
            _ => None,
        })
        .collect();
    assert!(
        appended.contains("100%"),
        "100% が Append される: {appended:?}"
    );

    // AppState に適用して最終テキストを確認する。
    let mut state = AppState::seed();
    state.focus_session("s3");
    if let Some(sess) = state.active_mut() {
        sess.input_buffer = "test".into();
    }
    state.submit_input("12:00".into());
    for action in actions {
        state.apply_term_action("s3", action);
    }
    let block = state.active().unwrap().blocks.last().unwrap();
    let text: String = block.output.iter().map(|s| s.text.as_str()).collect();
    // OverwriteLine で先頭行が削れ、100% が残る。
    assert!(
        text.contains("100%"),
        "最終出力に 100% が含まれる: {text:?}",
    );
    assert!(!text.contains("50%"), "50% は上書きされて消える: {text:?}",);
    // OutputSpan 型の使用を明示するため型注釈（未使用変数抑制）。
    let _: &[OutputSpan] = &block.output;
}

// ── 05: DetachedOutput テスト ──────────────────────────────────────────────

/// OSC 133 モードで D → ジョブ通知 → A の順で AppendDetached が発行される。
#[test]
fn session_term_detached_output_emitted_after_end() {
    let mut t = SessionTerm::new();
    // まず Osc133 モードに切り替える（D → A）。
    t.on_submit("");
    let _ = t.feed(b"\x1b]133;C\x07out\n\x1b]133;D;0\x07"); // D で Osc133 確定 + in_command=false
                                                            // D の後（at_prompt=false）にジョブ通知。
    let actions = t.feed(b"[1]  + done sleep 5\n");
    assert!(
        actions
            .iter()
            .any(|a| matches!(a, TermAction::AppendDetached(_))),
        "D 後の出力は AppendDetached: {actions:?}",
    );
}

/// OSC 133 モードで A → プロンプト文字列 → C の間は AppendDetached が出ない。
#[test]
fn session_term_detached_output_not_emitted_in_prompt() {
    let mut t = SessionTerm::new();
    // Osc133 確定。
    t.on_submit("");
    let _ = t.feed(b"\x1b]133;C\x07out\n\x1b]133;D;0\x07");
    // A（at_prompt=true）→ プロンプト文字列 → C。
    let actions = t.feed(b"\x1b]133;A\x07user@host:~$ \x1b]133;C\x07");
    assert!(
        !actions
            .iter()
            .any(|a| matches!(a, TermAction::AppendDetached(_))),
        "A〜C 間は AppendDetached を出さない: {actions:?}",
    );
}

/// 空白のみの区間外出力は AppendDetached が発行されない。
#[test]
fn session_term_detached_whitespace_only_not_emitted() {
    let mut t = SessionTerm::new();
    t.on_submit("");
    let _ = t.feed(b"\x1b]133;C\x07out\n\x1b]133;D;0\x07");
    let actions = t.feed(b"   \n  \n");
    assert!(
        !actions
            .iter()
            .any(|a| matches!(a, TermAction::AppendDetached(_))),
        "空白のみは AppendDetached を出さない: {actions:?}",
    );
}

// ── 06: Auto モードエコー除去テスト ───────────────────────────────────────

/// Auto モードで `on_submit("ls")` → `"ls\r\nfile1\n"` → エコー行だけ捨てられる。
#[test]
fn session_term_auto_echo_stripped() {
    let mut t = SessionTerm::new();
    t.on_submit("ls");
    let actions = t.feed(b"ls\r\nfile1\n");
    let text: String = actions
        .iter()
        .filter_map(|a| match a {
            TermAction::Append(spans) => {
                Some(spans.iter().map(|s| s.text.as_str()).collect::<String>())
            }
            _ => None,
        })
        .collect();
    assert_eq!(text, "file1\n", "エコー行 'ls' が捨てられる: text={text:?}");
}

/// Auto モードで先頭行が echo と不一致の場合は何も捨てられない。
#[test]
fn session_term_auto_echo_mismatch_kept() {
    let mut t = SessionTerm::new();
    t.on_submit("ls");
    let actions = t.feed(b"file1\nfile2\n");
    let text: String = actions
        .iter()
        .filter_map(|a| match a {
            TermAction::Append(spans) => {
                Some(spans.iter().map(|s| s.text.as_str()).collect::<String>())
            }
            _ => None,
        })
        .collect();
    assert!(
        text.contains("file1") && text.contains("file2"),
        "不一致時は何も捨てない: {text:?}",
    );
}

/// チャンク分断でも正しくエコー行だけ捨てられる。
#[test]
fn session_term_auto_echo_chunked() {
    let mut t = SessionTerm::new();
    t.on_submit("ls");
    let _ = t.feed(b"ls");
    let actions = t.feed(b"\r\nfile1\n");
    let text: String = actions
        .iter()
        .filter_map(|a| match a {
            TermAction::Append(spans) => {
                Some(spans.iter().map(|s| s.text.as_str()).collect::<String>())
            }
            _ => None,
        })
        .collect();
    assert_eq!(
        text, "file1\n",
        "チャンク分断でもエコー行が捨てられる: {text:?}"
    );
}

// ── 07: alternate screen テスト ────────────────────────────────────────────

/// `\x1b[?1049h` → AltScreen(true)。
#[test]
fn sgr_alt_screen_enter_1049() {
    let mut c = SgrConverter::new();
    let events = c.convert(b"\x1b[?1049h");
    assert!(
        events
            .iter()
            .any(|e| matches!(e, SgrEvent::AltScreen(true))),
        "AltScreen(true) が発行される: {events:?}",
    );
}

/// `\x1b[?1049l` → AltScreen(false)。
#[test]
fn sgr_alt_screen_leave_1049() {
    let mut c = SgrConverter::new();
    let events = c.convert(b"\x1b[?1049l");
    assert!(
        events
            .iter()
            .any(|e| matches!(e, SgrEvent::AltScreen(false))),
        "AltScreen(false) が発行される: {events:?}",
    );
}

/// `\x1b[?47h` と `\x1b[?1047h` も AltScreen(true)。
#[test]
fn sgr_alt_screen_47_and_1047() {
    let mut c = SgrConverter::new();
    let e1 = c.convert(b"\x1b[?47h");
    assert!(
        e1.iter().any(|e| matches!(e, SgrEvent::AltScreen(true))),
        "?47h は AltScreen(true): {e1:?}",
    );
    let e2 = c.convert(b"\x1b[?1047h");
    assert!(
        e2.iter().any(|e| matches!(e, SgrEvent::AltScreen(true))),
        "?1047h は AltScreen(true): {e2:?}",
    );
}

/// `\x1b[?25h`（カーソル表示）では AltScreen が発行されない。
#[test]
fn sgr_alt_screen_cursor_show_not_triggered() {
    let mut c = SgrConverter::new();
    let events = c.convert(b"\x1b[?25h");
    assert!(
        !events.iter().any(|e| matches!(e, SgrEvent::AltScreen(_))),
        "?25h では AltScreen を出さない: {events:?}",
    );
}

/// SessionTerm: `\x1b[?1049h` → TermAction::AltScreen(true)。
#[test]
fn session_term_alt_screen_action() {
    let mut t = SessionTerm::new();
    t.on_submit("vim");
    let actions = t.feed(b"\x1b]133;C\x07\x1b[?1049h");
    assert!(
        actions
            .iter()
            .any(|a| matches!(a, TermAction::AltScreen(true))),
        "AltScreen(true) action: {actions:?}",
    );
}

/// SessionTerm: `\x1b[?1049l` → TermAction::AltScreen(false)。
#[test]
fn session_term_alt_screen_leave_action() {
    let mut t = SessionTerm::new();
    t.on_submit("vim");
    let actions = t.feed(b"\x1b]133;C\x07\x1b[?1049h\x1b[?1049l");
    assert!(
        actions
            .iter()
            .any(|a| matches!(a, TermAction::AltScreen(false))),
        "AltScreen(false) action: {actions:?}",
    );
}
