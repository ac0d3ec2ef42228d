use tanaterm::state::{AppState, Command, OutputColor, PersistentSession, PersistentState};
use tanaterm::term::osc::{BlockEvent, OscScanner};
use tanaterm::term::session::{SessionTerm, TermAction};
use tanaterm::term::sgr::{SgrConverter, SgrEvent};

/// Events with adjacent output merged, so that chunkings can be compared.
fn normalized(events: Vec<BlockEvent>) -> Vec<BlockEvent> {
    let mut out: Vec<BlockEvent> = Vec::new();
    for e in events {
        match (out.last_mut(), e) {
            (Some(BlockEvent::Output(prev)), BlockEvent::Output(more)) => prev.extend(more),
            (_, e) => out.push(e),
        }
    }
    out
}

#[test]
fn scanner_split_at_every_position_gives_same_events() {
    let input: &[u8] = b"ab\x1b]133;C\x07out\x1b]7;file://h/x%20y\x1b\\\x1b[31mred\x1b]133;D;2\x07";
    let whole = normalized(OscScanner::new().process(input));
    for cut in 0..=input.len() {
        let mut s = OscScanner::new();
        let mut events = s.process(&input[..cut]);
        events.extend(s.process(&input[cut..]));
        assert_eq!(normalized(events), whole, "split at {cut}");
    }
    assert_eq!(
        whole,
        vec![
            BlockEvent::Output(b"ab".to_vec()),
            BlockEvent::CommandStart,
            BlockEvent::Output(b"out".to_vec()),
            BlockEvent::Cwd("/x y".to_string()),
            BlockEvent::Output(b"\x1b[31mred".to_vec()),
            BlockEvent::CommandEnd { exit: Some(2) },
        ]
    );
}

#[test]
fn scanner_passes_plain_output_unchanged() {
    let input = b"plain text\r\nwith lines\n";
    let events = OscScanner::new().process(input);
    assert_eq!(events, vec![BlockEvent::Output(input.to_vec())]);
}

#[test]
fn sgr_sequence_split_across_chunks_still_colors() {
    let mut c = SgrConverter::new();
    let e1 = c.convert(b"\x1b[3");
    assert!(e1.is_empty(), "nothing to show yet: {e1:?}");
    let e2 = c.convert(b"1mred");
    assert_eq!(
        e2,
        vec![SgrEvent::Spans(vec![tanaterm::state::OutputSpan {
            color: OutputColor::Rust,
            text: "red".to_string(),
        }])]
    );
}

#[test]
fn osc133_mode_is_kept_after_prompt_like_output() {
    let mut t = SessionTerm::new();
    // The shell announced itself with OSC 133.
    t.feed(b"\x1b]133;A\x07$ ");
    t.on_submit("ls");
    let actions = t.feed(b"\x1b]133;C\x07file\n$ not a prompt\n");
    assert!(
        !actions.iter().any(|a| matches!(a, TermAction::EndBlock { .. })),
        "a prompt-like line does not end the block with OSC 133: {actions:?}"
    );
    let actions = t.feed(b"\x1b]133;D;0\x07");
    assert_eq!(actions, vec![TermAction::EndBlock { exit: Some(0) }]);
}

#[test]
fn history_keeps_repeats_that_are_not_adjacent() {
    let mut s = AppState::seed();
    s.focus_session("s3");
    for cmd in ["a", "b", "b", "a"] {
        s.active_mut().unwrap().input_buffer = cmd.to_string();
        s.submit_input("12:00".to_string());
    }
    assert_eq!(s.active().unwrap().history, vec!["a", "b", "a"]);
    assert_eq!(s.active().unwrap().blocks.len(), 4);
}

#[test]
fn closing_the_last_listed_active_session_activates_the_new_last() {
    let mut s = AppState::seed();
    s.focus_session("s5");
    assert!(s.close_session("s5"));
    assert_eq!(s.ui.active_session_id.as_deref(), Some("s4"));
    // Closing a session that is not active keeps the active one.
    assert!(s.close_session("s1"));
    assert_eq!(s.ui.active_session_id.as_deref(), Some("s4"));
    // Unknown ids change nothing.
    let before = s.sessions.len();
    assert!(!s.close_session("nope"));
    assert_eq!(s.sessions.len(), before);
}

#[test]
fn recent_commands_are_capped_at_thirty() {
    let mut s = AppState::seed();
    for k in 0..35u64 {
        s.record_recent_command(&format!("cmd {k}"), 1000 + k);
    }
    let recent: Vec<&Command> = s
        .commands
        .iter()
        .filter(|c| !c.pinned && c.last_used.is_some())
        .collect();
    assert_eq!(recent.len(), 30);
    // The five oldest were dropped.
    assert!(!s.commands.iter().any(|c| c.cmd == "cmd 4"));
    assert!(s.commands.iter().any(|c| c.cmd == "cmd 5"));
    assert!(s.commands.iter().any(|c| c.cmd == "cmd 34"));
    // The pinned catalogue is untouched.
    assert_eq!(s.commands.iter().filter(|c| c.pinned).count(), 6);
}

#[test]
fn roundtrip_keeps_active_session_and_falls_back_when_missing() {
    let mut s = AppState::seed();
    s.focus_session("s4");
    let p = s.to_persistent();
    let restored = AppState::from_persistent(p.clone());
    assert_eq!(restored.ui.active_session_id.as_deref(), Some("s4"));
    let names: Vec<&str> = restored.sessions.iter().map(|x| x.name.as_str()).collect();
    assert_eq!(names, vec!["tanaterm·dev", "api·logs", "scratch", "ssh prod-01", "notes"]);
    assert!(restored.sessions[0].pinned);

    let mut p2 = p;
    p2.active_session_id = Some("gone".to_string());
    let restored = AppState::from_persistent(p2);
    assert_eq!(restored.ui.active_session_id.as_deref(), Some("s1"));
}

#[test]
fn restored_counter_passes_shelf_and_command_ids() {
    let p = PersistentState {
        sessions: vec![PersistentSession {
            id: "s1".into(),
            name: "one".into(),
            pwd: "~/".into(),
            pinned: false,
        }],
        commands: vec![Command {
            id: "c420".into(),
            cmd: "make".into(),
            desc: None,
            pinned: true,
            uses: 0,
            last_used: None,
        }],
        ..Default::default()
    };
    let mut restored = AppState::from_persistent(p);
    assert_eq!(restored.next_id, 421);
    assert_eq!(restored.new_session("x", "~/"), "s421");
}

#[test]
fn alt_screen_drops_output_and_end_block_leaves_it() {
    let mut s = AppState::seed();
    s.focus_session("s3");
    s.active_mut().unwrap().input_buffer = "less f".to_string();
    s.submit_input("12:00".to_string());
    s.apply_term_action("s3", TermAction::AltScreen(true));
    s.apply_term_action("s3", TermAction::OverwriteLine);
    s.apply_term_action("s3", TermAction::EndBlock { exit: Some(3) });
    let sess = s.active().unwrap();
    assert!(!sess.alt_screen);
    assert_eq!(sess.blocks.last().unwrap().exit_code, Some(3));
    assert!(!sess.blocks.last().unwrap().running);
    assert_eq!(sess.status, tanaterm::state::SessionStatus::Error);
}

/// What the converter shows, flattened: each character with its colour,
/// and markers for carriage returns and screen switches.
fn shown(events: &[SgrEvent]) -> Vec<(Option<char>, OutputColor, u8)> {
    let mut out = Vec::new();
    for e in events {
        match e {
            SgrEvent::Spans(spans) => {
                for s in spans {
                    for ch in s.text.chars() {
                        out.push((Some(ch), s.color, 0));
                    }
                }
            }
            SgrEvent::CarriageReturn => out.push((None, OutputColor::Default, 1)),
            SgrEvent::AltScreen(on) => out.push((None, OutputColor::Default, if *on { 2 } else { 3 })),
        }
    }
    out
}

#[test]
fn sgr_split_at_every_position_shows_the_same() {
    let mut bytes: Vec<u8> =
        "a\x1b[32mこん\r\nにち\rは\x1b[0m \x1b[?1049hé\x1b[1;31m!\x1b[?1049l".as_bytes().to_vec();
    bytes.push(0xff);
    bytes.extend_from_slice(b" z\r");
    let input: &[u8] = &bytes;
    let mut whole_conv = SgrConverter::new();
    let whole = shown(&whole_conv.convert(input));
    for cut in 1..input.len() {
        let mut c = SgrConverter::new();
        let mut events = c.convert(&input[..cut]);
        events.extend(c.convert(&input[cut..]));
        assert_eq!(shown(&events), whole, "split at {cut}");
    }
    assert!(whole.iter().any(|(ch, col, _)| *ch == Some('こ') && *col == OutputColor::Sage));
    // The stray byte shows as one replacement character.
    assert_eq!(whole.iter().filter(|(ch, _, _)| *ch == Some('\u{FFFD}')).count(), 1);
}

#[test]
fn first_osc133_d_in_heuristic_mode_only_switches_mode() {
    let mut t = SessionTerm::new();
    t.on_submit("ls");
    let actions = t.feed(b"\x1b]133;D;0\x07");
    assert!(
        !actions.iter().any(|a| matches!(a, TermAction::EndBlock { .. })),
        "{actions:?}"
    );
    // Output with OSC 133 stays in the block until D.
    let actions = t.feed(b"\x1b]133;C\x07line\n$ looks like a prompt\n\r50%");
    assert!(actions
        .iter()
        .all(|a| matches!(a, TermAction::Append(_) | TermAction::OverwriteLine | TermAction::AltScreen(_))));
}
