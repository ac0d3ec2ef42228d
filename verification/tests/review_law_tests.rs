use tanaterm::config::Shell;
use tanaterm::pty::shell_command;
use tanaterm::shell_integration::plan;
use tanaterm::state::{AppState, Command, OutputColor, OutputSpan};
use tanaterm::term::osc::{BlockEvent, OscScanner};
use tanaterm::term::session::{SessionTerm, TermAction};
use tanaterm::term::sgr::{SgrConverter, SgrEvent};

fn merge(events: Vec<BlockEvent>) -> Vec<BlockEvent> {
    let mut out: Vec<BlockEvent> = Vec::new();
    for e in events {
        match (out.last_mut(), e) {
            (Some(BlockEvent::Output(a)), BlockEvent::Output(b)) => a.extend(b),
            (_, e) => out.push(e),
        }
    }
    out
}

#[test]
fn shell_command_without_integration_is_login_and_term() {
    let (args, env) = shell_command(true, &None);
    assert_eq!(args, vec!["-l".to_owned()]);
    assert_eq!(env, vec![("TERM".to_owned(), "xterm-256color".to_owned())]);
    let (args, _) = shell_command(false, &None);
    assert!(args.is_empty());
}

#[test]
fn shell_command_follows_the_integration() {
    let bash = plan(Shell::Bash, "/tmp/x");
    assert!(bash.suppress_login);
    let (args, env) = shell_command(true, &Some(bash.clone()));
    assert_eq!(args, bash.args);
    let mut expected = bash.env.clone();
    expected.push(("TERM".to_owned(), "xterm-256color".to_owned()));
    assert_eq!(env, expected);

    let zsh = plan(Shell::Zsh, "/tmp/y");
    let (args, env) = shell_command(true, &Some(zsh.clone()));
    let mut expected_args = vec!["-l".to_owned()];
    expected_args.extend(zsh.args.clone());
    assert_eq!(args, expected_args);
    assert_eq!(env.last().unwrap(), &("TERM".to_owned(), "xterm-256color".to_owned()));
    assert_eq!(env.len(), zsh.env.len() + 1);
}

#[test]
fn tab_query_is_allowed_without_a_base_directory() {
    let mut s = AppState::seed();
    let i = s.sessions.iter().position(|x| Some(&x.id) == s.ui.active_session_id.as_ref()).unwrap();
    s.sessions[i].cwd = None;
    s.sessions[i].pwd = "relative/dir".to_owned();
    // The last whitespace is multibyte: slicing would fail, but no base resolves.
    s.sessions[i].input_buffer = "ls\u{3000}fo".to_owned();
    assert!(s.tab_query_allowed());
    assert_eq!(s.tab_query(), None);
    s.sessions[i].cwd = Some("/tmp".to_owned());
    assert!(!s.tab_query_allowed());
    s.sessions[i].input_buffer = "ls fo".to_owned();
    assert!(s.tab_query_allowed());
    assert_eq!(s.tab_query().as_deref(), Some("/tmp"));
}

#[test]
fn recent_commands_stay_capped_and_pinned_stay() {
    let mut s = AppState::seed();
    s.commands.clear();
    s.commands.push(Command {
        id: "p1".to_owned(),
        cmd: "make".to_owned(),
        desc: None,
        pinned: true,
        uses: 0,
        last_used: None,
    });
    for k in 0..30u64 {
        s.record_recent_command(&format!("cmd{k}"), 100 + k);
    }
    let recent = |s: &AppState| s.commands.iter().filter(|c| !c.pinned && c.last_used.is_some()).count();
    assert_eq!(recent(&s), 30);
    s.record_recent_command("another", 500);
    assert_eq!(recent(&s), 30);
    assert!(s.commands.iter().all(|c| c.cmd != "cmd0"));
    assert!(s.commands.iter().any(|c| c.id == "p1" && c.pinned));
    s.record_recent_command("make", 600);
    assert_eq!(recent(&s), 30);
    assert!(s.commands.iter().any(|c| c.id == "p1" && c.pinned && c.last_used == Some(600)));
}

#[test]
fn scanner_events_do_not_depend_on_the_cut() {
    let whole: &[u8] = b"ab\x1b]133;A\x07$ \x1b]133;C\x07out\x1b]7;file://h/tmp\x1b\\z";
    let mut one = OscScanner::new();
    let expected = merge(one.process(whole));
    for k in 0..=whole.len() {
        let mut s = OscScanner::new();
        let mut evs = s.process(&whole[..k]);
        evs.extend(s.process(&whole[k..]));
        for e in &evs {
            if let BlockEvent::Output(b) = e {
                assert!(!b.is_empty());
            }
        }
        assert_eq!(merge(evs), expected, "cut at {k}");
    }
}

fn check_shape(events: &[SgrEvent]) {
    for (i, e) in events.iter().enumerate() {
        if let SgrEvent::Spans(v) = e {
            assert!(!v.is_empty());
            assert!(v.iter().all(|s| !s.text.is_empty()));
            assert!(v.windows(2).all(|w| w[0].color != w[1].color));
            if i + 1 < events.len() {
                assert!(!matches!(events[i + 1], SgrEvent::Spans(_)));
            }
        }
    }
}

fn text(events: &[SgrEvent]) -> String {
    let mut t = String::new();
    for e in events {
        if let SgrEvent::Spans(v) = e {
            for s in v {
                t.push_str(&s.text);
            }
        }
    }
    t
}

#[test]
fn converter_results_are_well_shaped() {
    let mut c = SgrConverter::new();
    let evs = c.convert(b"\x1b[31mred\x1b[31m more\x1b[0m plain\r\nnext\rover\x1b[?1049hfull\x1b[32m\x1b[0m");
    check_shape(&evs);
    assert_eq!(text(&evs), "red more plain\nnextoverfull");
}

#[test]
fn plain_text_cut_anywhere_keeps_its_characters() {
    let s = "héllo 日本語 wörld";
    for k in 0..=s.len() {
        let mut c = SgrConverter::new();
        let a = c.convert(&s.as_bytes()[..k]);
        let b = c.convert(&s.as_bytes()[k..]);
        check_shape(&a);
        check_shape(&b);
        assert_eq!(text(&a) + &text(&b), s, "cut at {k}");
    }
}

fn after_end() -> SessionTerm {
    let mut t = SessionTerm::new();
    t.on_submit("");
    let _ = t.feed(b"\x1b]133;C\x07out\n\x1b]133;D;0\x07");
    t
}

#[test]
fn detached_text_is_one_dimmed_span_or_nothing() {
    let mut t = after_end();
    assert_eq!(
        t.feed("note: 日本\n".as_bytes()),
        vec![TermAction::AppendDetached(vec![OutputSpan {
            color: OutputColor::Dim,
            text: "note: 日本\n".to_owned()
        }])]
    );
    let mut t = after_end();
    assert_eq!(t.feed(b"  \n\t"), vec![]);
    let mut t = after_end();
    assert_eq!(t.feed(b"\x1b]133;A\x07user@host $ \x1b]133;C\x07"), vec![]);
}
