//! The fixture state used to exercise the library: five sessions with a few
//! blocks, the built-in shelf and catalogue.
use vstd::prelude::*;
use crate::state::{OutputColor, OutputSpan, SpanV, spans_view};
use crate::state::model::{AppState, AppV, Block, BlockV, Session, SessionStatus, SessionV, UiState, UiV, sessions_view};
use crate::state::ops::new_session_v;
use crate::state::persist::{commands, default_ui, first_id, seed_commands, seed_shelf, shelf};

verus! {

/// The output of a seeded block.
pub open spec fn seed_output_b1() -> Seq<SpanV> {
    seq![
        span_v(OutputColor::Dim, "total 48\n"@),
        span_v(OutputColor::Azure, "drwxr-xr-x"@),
        span_v(OutputColor::Dim, "  12 tanaka  staff   384 May 21 14:01 "@),
        span_v(OutputColor::Default, ".\n"@),
        span_v(OutputColor::Azure, "drwxr-xr-x"@),
        span_v(OutputColor::Dim, "   4 tanaka  staff   128 May 18 09:12 "@),
        span_v(OutputColor::Default, "..\n"@),
        span_v(OutputColor::Dim, "-rw-r--r--   1 tanaka  staff  1234 May 21 13:58 "@),
        span_v(OutputColor::Default, "Cargo.toml\n"@),
        span_v(OutputColor::Azure, "drwxr-xr-x"@),
        span_v(OutputColor::Dim, "   8 tanaka  staff   256 May 21 14:00 "@),
        span_v(OutputColor::Default, "src\n"@),
    ]
}

pub open spec fn seed_output_b2() -> Seq<SpanV> {
    seq![
        span_v(OutputColor::Dim, "> tanaterm@0.4.1 typecheck\n> tsc --noEmit\n\n"@),
        span_v(OutputColor::Sage, "✓ "@),
        span_v(OutputColor::Default, "0 errors  · 3.42s\n"@),
    ]
}

pub open spec fn seed_output_b3() -> Seq<SpanV> {
    seq![
        span_v(OutputColor::Dim, "> tanaterm@0.4.1 dev\n> vite\n\n"@),
        span_v(OutputColor::Amber, "  VITE v5.2 "@),
        span_v(OutputColor::Dim, " ready in 318 ms\n\n"@),
        span_v(OutputColor::Sage, "  ➜  "@),
        span_v(OutputColor::Default, "Local:   "@),
        span_v(OutputColor::Azure, "http://localhost:5173/\n"@),
        span_v(OutputColor::Sage, "  ➜  "@),
        span_v(OutputColor::Default, "Network: use --host to expose\n"@),
    ]
}

pub open spec fn seed_output_b4() -> Seq<SpanV> {
    seq![
        span_v(OutputColor::Dim, "Streaming logs…"@),
    ]
}

pub open spec fn span_v(color: OutputColor, text: Seq<char>) -> SpanV {
    SpanV { color, text }
}

pub open spec fn block_v(id: Seq<char>, cmd: Seq<char>, pwd: Seq<char>, time: Seq<char>, started: u64, running: bool, exit_code: Option<i32>, output: Seq<SpanV>) -> BlockV {
    BlockV { id, cmd, pwd, time, started_at_unix: started, running, exit_code, output }
}

/// The seeded sessions, with `now` the start of their running blocks.
pub open spec fn seed_sessions(now: u64) -> Seq<SessionV> {
    seq![
        SessionV {
            status: SessionStatus::Live,
            pinned: true,
            remote: None,
            node: Some("v22.16.0"@),
            blocks: seq![block_v("b1"@, "ls -la"@, "~/work/tanaterm"@, "14:02"@, 0, false, Some(0i32), seed_output_b1()), block_v("b2"@, "pnpm typecheck"@, "~/work/tanaterm"@, "14:03"@, 0, false, Some(0i32), seed_output_b2()), block_v("b3"@, "pnpm dev"@, "~/work/tanaterm"@, "14:04"@, now, true, None, seed_output_b3())],
            history: seq!["ls -la"@, "pnpm typecheck"@, "pnpm dev"@],
            ..new_session_v("s1"@, "tanaterm·dev"@, "~/work/tanaterm"@)
        },
        SessionV {
            status: SessionStatus::Busy,
            pinned: false,
            remote: None,
            node: Some("v20.11.1"@),
            blocks: seq![block_v("b4"@, "docker compose logs -f api"@, "~/work/api"@, "13:48"@, now, true, None, seed_output_b4())],
            history: seq!["docker compose logs -f api"@],
            ..new_session_v("s2"@, "api·logs"@, "~/work/api"@)
        },
        SessionV {
            status: SessionStatus::Live,
            pinned: false,
            remote: None,
            node: None,
            blocks: Seq::empty(),
            history: Seq::empty(),
            ..new_session_v("s3"@, "scratch"@, "~/Downloads"@)
        },
        SessionV {
            status: SessionStatus::Error,
            pinned: false,
            remote: Some("tanaka@prod-01"@),
            node: None,
            blocks: Seq::empty(),
            history: Seq::empty(),
            ..new_session_v("s4"@, "ssh prod-01"@, "/var/log"@)
        },
        SessionV {
            status: SessionStatus::Idle,
            pinned: false,
            remote: None,
            node: None,
            blocks: Seq::empty(),
            history: Seq::empty(),
            ..new_session_v("s5"@, "notes"@, "~/notes"@)
        },
    ]
}

fn output_b1() -> (r: Vec<OutputSpan>)
    ensures
        spans_view(r@) == seed_output_b1(),
{
    let r = vec![
        span(OutputColor::Dim, "total 48\n"),
        span(OutputColor::Azure, "drwxr-xr-x"),
        span(OutputColor::Dim, "  12 tanaka  staff   384 May 21 14:01 "),
        span(OutputColor::Default, ".\n"),
        span(OutputColor::Azure, "drwxr-xr-x"),
        span(OutputColor::Dim, "   4 tanaka  staff   128 May 18 09:12 "),
        span(OutputColor::Default, "..\n"),
        span(OutputColor::Dim, "-rw-r--r--   1 tanaka  staff  1234 May 21 13:58 "),
        span(OutputColor::Default, "Cargo.toml\n"),
        span(OutputColor::Azure, "drwxr-xr-x"),
        span(OutputColor::Dim, "   8 tanaka  staff   256 May 21 14:00 "),
        span(OutputColor::Default, "src\n"),
    ];
    assert(spans_view(r@) =~= seed_output_b1());
    r
}

fn output_b2() -> (r: Vec<OutputSpan>)
    ensures
        spans_view(r@) == seed_output_b2(),
{
    let r = vec![
        span(OutputColor::Dim, "> tanaterm@0.4.1 typecheck\n> tsc --noEmit\n\n"),
        span(OutputColor::Sage, "✓ "),
        span(OutputColor::Default, "0 errors  · 3.42s\n"),
    ];
    assert(spans_view(r@) =~= seed_output_b2());
    r
}

fn output_b3() -> (r: Vec<OutputSpan>)
    ensures
        spans_view(r@) == seed_output_b3(),
{
    let r = vec![
        span(OutputColor::Dim, "> tanaterm@0.4.1 dev\n> vite\n\n"),
        span(OutputColor::Amber, "  VITE v5.2 "),
        span(OutputColor::Dim, " ready in 318 ms\n\n"),
        span(OutputColor::Sage, "  ➜  "),
        span(OutputColor::Default, "Local:   "),
        span(OutputColor::Azure, "http://localhost:5173/\n"),
        span(OutputColor::Sage, "  ➜  "),
        span(OutputColor::Default, "Network: use --host to expose\n"),
    ];
    assert(spans_view(r@) =~= seed_output_b3());
    r
}

fn output_b4() -> (r: Vec<OutputSpan>)
    ensures
        spans_view(r@) == seed_output_b4(),
{
    let r = vec![
        span(OutputColor::Dim, "Streaming logs…"),
    ];
    assert(spans_view(r@) =~= seed_output_b4());
    r
}

fn span(color: OutputColor, text: &str) -> (r: OutputSpan)
    ensures
        r@ == span_v(color, text@),
{
    OutputSpan { color, text: text.to_owned() }
}

fn sessions(now: u64) -> (r: Vec<Session>)
    ensures
        sessions_view(r@) == seed_sessions(now),
{
    let r = vec![
        Session {
            id: "s1".to_owned(),
            name: "tanaterm·dev".to_owned(),
            pwd: "~/work/tanaterm".to_owned(),
            status: SessionStatus::Live,
            pinned: true,
            remote: None,
            node: Some("v22.16.0".to_owned()),
            blocks: vec![Block {
                id: "b1".to_owned(),
                cmd: "ls -la".to_owned(),
                pwd: "~/work/tanaterm".to_owned(),
                time: "14:02".to_owned(),
                started_at_unix: 0,
                running: false,
                exit_code: Some(0),
                output: output_b1(),
            }, Block {
                id: "b2".to_owned(),
                cmd: "pnpm typecheck".to_owned(),
                pwd: "~/work/tanaterm".to_owned(),
                time: "14:03".to_owned(),
                started_at_unix: 0,
                running: false,
                exit_code: Some(0),
                output: output_b2(),
            }, Block {
                id: "b3".to_owned(),
                cmd: "pnpm dev".to_owned(),
                pwd: "~/work/tanaterm".to_owned(),
                time: "14:04".to_owned(),
                started_at_unix: now,
                running: true,
                exit_code: None,
                output: output_b3(),
            }],
            cwd: None,
            input_buffer: String::new(),
            history: vec!["ls -la".to_owned(), "pnpm typecheck".to_owned(), "pnpm dev".to_owned()],
            history_cursor: None,
            alt_screen: false,
            shell_exited: false,
        },
        Session {
            id: "s2".to_owned(),
            name: "api·logs".to_owned(),
            pwd: "~/work/api".to_owned(),
            status: SessionStatus::Busy,
            pinned: false,
            remote: None,
            node: Some("v20.11.1".to_owned()),
            blocks: vec![Block {
                id: "b4".to_owned(),
                cmd: "docker compose logs -f api".to_owned(),
                pwd: "~/work/api".to_owned(),
                time: "13:48".to_owned(),
                started_at_unix: now,
                running: true,
                exit_code: None,
                output: output_b4(),
            }],
            cwd: None,
            input_buffer: String::new(),
            history: vec!["docker compose logs -f api".to_owned()],
            history_cursor: None,
            alt_screen: false,
            shell_exited: false,
        },
        Session {
            id: "s3".to_owned(),
            name: "scratch".to_owned(),
            pwd: "~/Downloads".to_owned(),
            status: SessionStatus::Live,
            pinned: false,
            remote: None,
            node: None,
            blocks: Vec::new(),
            cwd: None,
            input_buffer: String::new(),
            history: Vec::new(),
            history_cursor: None,
            alt_screen: false,
            shell_exited: false,
        },
        Session {
            id: "s4".to_owned(),
            name: "ssh prod-01".to_owned(),
            pwd: "/var/log".to_owned(),
            status: SessionStatus::Error,
            pinned: false,
            remote: Some("tanaka@prod-01".to_owned()),
            node: None,
            blocks: Vec::new(),
            cwd: None,
            input_buffer: String::new(),
            history: Vec::new(),
            history_cursor: None,
            alt_screen: false,
            shell_exited: false,
        },
        Session {
            id: "s5".to_owned(),
            name: "notes".to_owned(),
            pwd: "~/notes".to_owned(),
            status: SessionStatus::Idle,
            pinned: false,
            remote: None,
            node: None,
            blocks: Vec::new(),
            cwd: None,
            input_buffer: String::new(),
            history: Vec::new(),
            history_cursor: None,
            alt_screen: false,
            shell_exited: false,
        },
    ];
    assert(sessions_view(r@) =~= seed_sessions(now)) by {
        assert forall|k: int| 0 <= k < 5 implies (#[trigger] sessions_view(r@)[k]) == seed_sessions(now)[k] by {
            assert(sessions_view(r@)[k].blocks =~= seed_sessions(now)[k].blocks);
            assert(sessions_view(r@)[k].history =~= seed_sessions(now)[k].history);
        }
    }
    r
}

/// The fixture state at `now`: five sessions (the first one active), the
/// built-in shelf and catalogue, nothing queued.
pub open spec fn seed_spec(now: u64) -> AppV {
    AppV {
        sessions: seed_sessions(now),
        shelf: seed_shelf(),
        commands: seed_commands(),
        ui: UiV { active: Some("s1"@), ..default_ui() },
        next_id: first_id(),
        pending: Seq::empty(),
        home: None,
    }
}

impl AppState {
    /// The fixture state (see `seed_spec`); its running blocks start now.
    pub fn seed() -> (r: Self)
        ensures
            exists|now: u64| r@ == seed_spec(now),
    {
        let now = crate::clock::now_unix();
        let sessions = sessions(now);
        let r = AppState {
            sessions,
            shelf: shelf(),
            commands: commands(),
            ui: UiState { active_session_id: Some("s1".to_owned()), ..UiState::default() },
            next_id: 100,
            pending: Vec::new(),
            home: None,
        };
        assert(r@.pending =~= Seq::<crate::state::model::PendingV>::empty());
        assert(r@ == seed_spec(now));
        r
    }
}

} // verus!
