//! `SessionTerm`: the scanner and the converter of one session together with
//! the life cycle of its command blocks.
//!
//! OSC 133 is the primary way to delimit blocks: output between `C` (command
//! start) and `D` (command end) belongs to the running block. Until the shell
//! has sent one OSC 133 sequence, a heuristic mode takes its place: output
//! is captured from a submit on, the echo of the command is dropped, and a
//! line that starts like a prompt ends the block.
use vstd::prelude::*;
use crate::state::{OutputColor, OutputSpan, SpanV, clone_spans, spans_view};
use crate::term::osc::{
    BlockEvent, BlockEventV, OscScanner, ScanItem, ScanState, ScanV, events_view, find_from, group, group_acc,
    law_scan_plain, lemma_group_push, output_event, scan,
};
use crate::term::sgr::{
    SgrConverter, SgrEvent, SgrEventV, SgrV, law_sgr_plain, plain_bytes, plain_events, sgr_clean, sgr_convert,
    sgr_events_view, sgr_group,
};
use crate::text::{lossy_decode, partial_decode, push_lossy, str_eq, trim, trim_char, trimmed, trimmed_char};
use vstd::slice::slice_to_vec;

verus! {

/// How blocks are delimited.
#[derive(Clone, Copy, PartialEq, Eq, Structural, Debug)]
pub enum Mode {
    /// No OSC 133 seen yet: from a submit to a prompt-like line.
    Auto,
    /// OSC 133 seen: from `C` to `D`.
    Osc133,
}

/// What `AppState` applies to the running block of the session.
#[derive(Debug, Clone, PartialEq, Eq)]
pub enum TermAction {
    /// Append spans to the output of the running block.
    Append(Vec<OutputSpan>),
    /// Drop the output captured so far (an echo taken in the heuristic mode).
    ClearOutput,
    /// End the running block; `exit` only when OSC 133 reported it.
    EndBlock { exit: Option<i32> },
    /// A new working directory (OSC 7).
    SetCwd(String),
    /// A lone `\r`: the last line of the running block is overwritten.
    OverwriteLine,
    /// Output outside a command (such as a background job), dimmed, for the
    /// last block.
    AppendDetached(Vec<OutputSpan>),
    /// Alternate screen entered (`true`) or left.
    AltScreen(bool),
}

pub enum TermActionV {
    Append(Seq<SpanV>),
    ClearOutput,
    EndBlock { exit: Option<i32> },
    SetCwd(Seq<char>),
    OverwriteLine,
    AppendDetached(Seq<SpanV>),
    AltScreen(bool),
}

impl View for TermAction {
    type V = TermActionV;

    open spec fn view(&self) -> TermActionV {
        match self {
            TermAction::Append(v) => TermActionV::Append(spans_view(v@)),
            TermAction::ClearOutput => TermActionV::ClearOutput,
            TermAction::EndBlock { exit } => TermActionV::EndBlock { exit: *exit },
            TermAction::SetCwd(s) => TermActionV::SetCwd(s@),
            TermAction::OverwriteLine => TermActionV::OverwriteLine,
            TermAction::AppendDetached(v) => TermActionV::AppendDetached(spans_view(v@)),
            TermAction::AltScreen(b) => TermActionV::AltScreen(*b),
        }
    }
}

pub open spec fn actions_view(v: Seq<TermAction>) -> Seq<TermActionV> {
    v.map_values(|a: TermAction| a@)
}

/// Scanner, converter and block life cycle of one session.
pub struct SessionTerm {
    scanner: OscScanner,
    sgr: SgrConverter,
    mode: Mode,
    /// Output is being captured into the running block.
    in_command: bool,
    /// OSC 133 mode, between `A` and `C`: the prompt is on screen.
    at_prompt: bool,
    /// Heuristic mode: the submitted command, until its echo is decided on.
    pending_echo: Option<String>,
    /// Bytes held until the first line is complete, to compare with the echo.
    echo_buf: Vec<u8>,
}

/// Mathematical form of a `SessionTerm`.
pub struct TermV {
    pub scanner: ScanV,
    pub sgr: SgrV,
    pub mode: Mode,
    pub in_command: bool,
    pub at_prompt: bool,
    pub pending_echo: Option<Seq<char>>,
    pub echo_buf: Seq<u8>,
}

impl View for SessionTerm {
    type V = TermV;

    closed spec fn view(&self) -> TermV {
        TermV {
            scanner: self.scanner@,
            sgr: self.sgr@,
            mode: self.mode,
            in_command: self.in_command,
            at_prompt: self.at_prompt,
            pending_echo: match self.pending_echo {
                Some(s) => Some(s@),
                None => None,
            },
            echo_buf: self.echo_buf@,
        }
    }
}

/// The converter after `reset`.
pub open spec fn sgr_reset(s: SgrV) -> SgrV {
    SgrV {
        color: OutputColor::Default,
        esc: crate::term::sgr::EscState::Text,
        params: seq![],
        pending: seq![],
        cr_pending: false,
        ..s
    }
}

/// Actions for the converter's events: spans are appended, a lone `\r`
/// overwrites the last line, alternate-screen switches are passed on.
pub open spec fn sgr_actions(evs: Seq<SgrEventV>) -> Seq<TermActionV>
    decreases evs.len(),
{
    if evs.len() == 0 {
        seq![]
    } else {
        sgr_actions(evs.drop_last()) + match evs.last() {
            SgrEventV::Spans(s) => if s.len() > 0 {
                seq![TermActionV::Append(s)]
            } else {
                seq![]
            },
            SgrEventV::CarriageReturn => seq![TermActionV::OverwriteLine],
            SgrEventV::AltScreen(b) => seq![TermActionV::AltScreen(b)],
        }
    }
}

/// `line` without its leading spaces and tabs.
pub open spec fn skip_blanks(line: Seq<u8>) -> Seq<u8>
    decreases line.len(),
{
    if line.len() > 0 && (line[0] == 0x20 || line[0] == 0x09) {
        skip_blanks(line.drop_first())
    } else {
        line
    }
}

/// A line that starts (after blanks) with `$ `, `% ` or `# `.
pub open spec fn line_is_prompt(line: Seq<u8>) -> bool {
    let t = skip_blanks(line);
    t.len() >= 2 && (t[0] == 0x24 || t[0] == 0x25 || t[0] == 0x23) && t[1] == 0x20
}

/// Start of the first line after a newline, from index `k` on, that looks like
/// a prompt; the first line itself is never one.
pub open spec fn prompt_split_from(raw: Seq<u8>, k: int) -> Option<int>
    decreases raw.len() - k,
{
    if k < 0 || k >= raw.len() {
        None
    } else if raw[k] == 0x0a && line_is_prompt(raw.skip(k + 1)) {
        Some(k + 1)
    } else {
        prompt_split_from(raw, k + 1)
    }
}

pub open spec fn prompt_split_spec(raw: Seq<u8>) -> Option<int> {
    prompt_split_from(raw, 0)
}

/// All spans of the `Spans` events, in order.
pub open spec fn flat_spans(evs: Seq<SgrEventV>) -> Seq<SpanV>
    decreases evs.len(),
{
    if evs.len() == 0 {
        seq![]
    } else {
        flat_spans(evs.drop_last()) + match evs.last() {
            SgrEventV::Spans(s) => s,
            _ => seq![],
        }
    }
}

/// All text of the spans.
pub open spec fn spans_text(spans: Seq<SpanV>) -> Seq<char>
    decreases spans.len(),
{
    if spans.len() == 0 {
        seq![]
    } else {
        spans_text(spans.drop_last()) + spans.last().text
    }
}

/// The spans recoloured as dimmed.
pub open spec fn dimmed(spans: Seq<SpanV>) -> Seq<SpanV> {
    spans.map_values(|s: SpanV| SpanV { color: OutputColor::Dim, text: s.text })
}

/// Output outside a command: its spans, dimmed, unless it is only whitespace.
pub open spec fn detached_actions(evs: Seq<SgrEventV>) -> Seq<TermActionV> {
    let spans = flat_spans(evs);
    if spans.len() > 0 && trim(spans_text(spans)).len() > 0 {
        seq![TermActionV::AppendDetached(dimmed(spans))]
    } else {
        seq![]
    }
}

/// Index of the first newline, if any.
pub open spec fn first_newline(s: Seq<u8>) -> Option<int> {
    crate::term::osc::find_byte(s, 0x0a)
}

/// The heuristic echo strip: the first complete line is dropped when it
/// equals the submitted command; the state after it and the converter's events.
pub open spec fn echo_strip(st: TermV, raw: Seq<u8>) -> (TermV, Seq<SgrEventV>) {
    match st.pending_echo {
        None => {
            let c = sgr_convert(st.sgr, raw);
            (TermV { sgr: c.0, ..st }, sgr_group(c.1))
        },
        Some(echo) => {
            let combined = st.echo_buf + raw;
            let cleared = TermV { pending_echo: None, echo_buf: seq![], ..st };
            match first_newline(combined) {
                Some(nl) => {
                    let first = trim(trim_char(lossy_decode(combined.take(nl)), '\r'));
                    if echo == first {
                        let rest = combined.skip(nl + 1);
                        if rest.len() == 0 {
                            (cleared, seq![])
                        } else {
                            let c = sgr_convert(st.sgr, rest);
                            (TermV { sgr: c.0, ..cleared }, sgr_group(c.1))
                        }
                    } else {
                        let c = sgr_convert(st.sgr, combined);
                        (TermV { sgr: c.0, ..cleared }, sgr_group(c.1))
                    }
                },
                None => if combined.len() > (vstd::utf8::encode_utf8(echo).len() as usize) as int + 16 {
                    let c = sgr_convert(st.sgr, combined);
                    (TermV { sgr: c.0, ..cleared }, sgr_group(c.1))
                } else {
                    (TermV { echo_buf: combined, ..st }, seq![])
                },
            }
        },
    }
}

/// The session's reaction to one scanner event.
pub open spec fn term_event(st: TermV, ev: BlockEventV) -> (TermV, Seq<TermActionV>) {
    match ev {
        BlockEventV::CommandStart => (
            TermV {
                mode: Mode::Osc133,
                in_command: true,
                at_prompt: false,
                pending_echo: None,
                echo_buf: seq![],
                sgr: sgr_reset(st.sgr),
                ..st
            },
            if st.in_command {
                seq![TermActionV::ClearOutput]
            } else {
                seq![]
            },
        ),
        BlockEventV::CommandEnd { exit } => if st.mode == Mode::Osc133 {
            if st.in_command {
                (
                    TermV { in_command: false, at_prompt: false, ..st },
                    seq![TermActionV::EndBlock { exit }],
                )
            } else {
                (st, seq![])
            }
        } else if st.in_command {
            (TermV { mode: Mode::Osc133, in_command: false, ..st }, seq![TermActionV::ClearOutput])
        } else {
            (TermV { mode: Mode::Osc133, ..st }, seq![])
        },
        BlockEventV::PromptStart => if st.mode == Mode::Auto && st.in_command {
            (
                TermV { mode: Mode::Osc133, in_command: false, at_prompt: true, ..st },
                seq![TermActionV::ClearOutput],
            )
        } else {
            (TermV { mode: Mode::Osc133, at_prompt: true, ..st }, seq![])
        },
        BlockEventV::Cwd(p) => (st, seq![TermActionV::SetCwd(p)]),
        BlockEventV::Output(raw) => if st.in_command {
            if st.mode == Mode::Auto && prompt_split_spec(raw) is Some {
                let r = echo_strip(st, raw.take(prompt_split_spec(raw)->0));
                (
                    TermV { in_command: false, ..r.0 },
                    sgr_actions(r.1) + seq![TermActionV::EndBlock { exit: None }],
                )
            } else if st.mode == Mode::Auto && st.pending_echo is Some {
                let r = echo_strip(st, raw);
                (r.0, sgr_actions(r.1))
            } else {
                let c = sgr_convert(st.sgr, raw);
                (TermV { sgr: c.0, ..st }, sgr_actions(sgr_group(c.1)))
            }
        } else if st.mode == Mode::Osc133 && !st.at_prompt {
            let c = sgr_convert(st.sgr, raw);
            (TermV { sgr: c.0, ..st }, detached_actions(sgr_group(c.1)))
        } else {
            (st, seq![])
        },
    }
}

/// The session's reaction to a list of scanner events.
pub open spec fn term_events(st: TermV, evs: Seq<BlockEventV>) -> (TermV, Seq<TermActionV>)
    decreases evs.len(),
{
    if evs.len() == 0 {
        (st, seq![])
    } else {
        let r = term_events(st, evs.drop_last());
        let s = term_event(r.0, evs.last());
        (s.0, r.1 + s.1)
    }
}

/// `feed`: scan the chunk, then react to its events in order.
pub open spec fn term_feed(st: TermV, bytes: Seq<u8>) -> (TermV, Seq<TermActionV>) {
    let sc = scan(st.scanner, bytes);
    term_events(TermV { scanner: sc.0, ..st }, group(sc.1))
}

/// Whether `line[start..]` begins (after blanks) with `$ `, `% ` or `# `.
fn byte_line_is_prompt(line: &[u8], start: usize) -> (r: bool)
    requires
        start <= line@.len(),
    ensures
        r == line_is_prompt(line@.skip(start as int)),
{
    let mut i = start;
    assert(line@.skip(start as int).skip(0) =~= line@.skip(start as int));
    while i < line.len() && (line[i] == 0x20 || line[i] == 0x09)
        invariant
            start <= i <= line@.len(),
            skip_blanks(line@.skip(start as int)) == skip_blanks(line@.skip(i as int)),
        decreases line@.len() - i,
    {
        assert(line@.skip(i as int).drop_first() =~= line@.skip(i + 1));
        i = i + 1;
    }
    let ghost t = line@.skip(i as int);
    assert(skip_blanks(t) == t);
    line.len() - i >= 2 && (line[i] == 0x24 || line[i] == 0x25 || line[i] == 0x23) && line[i + 1]
        == 0x20
}

/// Heuristic mode: start of the first line after a newline that looks like a
/// prompt (the first line is the command's own output).
pub fn prompt_split(raw: &[u8]) -> (r: Option<usize>)
    ensures
        match r {
            Some(i) => prompt_split_spec(raw@) == Some(i as int) && 1 <= i <= raw@.len(),
            None => prompt_split_spec(raw@) is None,
        },
{
    let mut k: usize = 0;
    while k < raw.len()
        invariant
            k <= raw@.len(),
            prompt_split_spec(raw@) == prompt_split_from(raw@, k as int),
        decreases raw@.len() - k,
    {
        if raw[k] == 0x0a && byte_line_is_prompt(raw, k + 1) {
            return Some(k + 1);
        }
        k = k + 1;
    }
    None
}

/// Actions for the converter's events.
fn push_sgr_events(events: &Vec<SgrEvent>, actions: &mut Vec<TermAction>)
    ensures
        actions_view(final(actions)@) == actions_view(old(actions)@) + sgr_actions(
            sgr_events_view(events@),
        ),
{
    let mut k: usize = 0;
    assert(sgr_events_view(events@).take(0) =~= Seq::<SgrEventV>::empty());
    assert(actions_view(actions@) =~= actions_view(old(actions)@) + sgr_actions(Seq::<SgrEventV>::empty()));
    while k < events.len()
        invariant
            k <= events@.len(),
            actions_view(actions@) == actions_view(old(actions)@) + sgr_actions(
                sgr_events_view(events@).take(k as int),
            ),
        decreases events@.len() - k,
    {
        let ghost ev = sgr_events_view(events@);
        assert(ev.take(k + 1).drop_last() =~= ev.take(k as int));
        assert(ev.take(k + 1).last() == events@[k as int]@);
        let ghost a0 = actions_view(actions@);
        match &events[k] {
            SgrEvent::Spans(spans) => {
                if spans.len() > 0 {
                    actions.push(TermAction::Append(clone_spans(spans)));
                }
            },
            SgrEvent::CarriageReturn => {
                actions.push(TermAction::OverwriteLine);
            },
            SgrEvent::AltScreen(b) => {
                actions.push(TermAction::AltScreen(*b));
            },
        }
        assert(actions_view(actions@) =~= a0 + match ev[k as int] {
            SgrEventV::Spans(s) => if s.len() > 0 {
                seq![TermActionV::Append(s)]
            } else {
                seq![]
            },
            SgrEventV::CarriageReturn => seq![TermActionV::OverwriteLine],
            SgrEventV::AltScreen(b) => seq![TermActionV::AltScreen(b)],
        });
        k = k + 1;
    }
    assert(sgr_events_view(events@).take(k as int) =~= sgr_events_view(events@));
}

/// Appends the bytes of `s` to `v`.
fn append_bytes(v: &mut Vec<u8>, s: &[u8])
    ensures
        final(v)@ == old(v)@ + s@,
{
    let mut i: usize = 0;
    while i < s.len()
        invariant
            i <= s@.len(),
            v@ == old(v)@ + s@.take(i as int),
        decreases s@.len() - i,
    {
        v.push(s[i]);
        assert(s@.take(i + 1) =~= s@.take(i as int).push(s@[i as int]));
        i = i + 1;
    }
    assert(s@.take(i as int) =~= s@);
}

/// Whether the first line `bytes[..nl]` (without `\r` and surrounding
/// whitespace) is the echo `e` of the submitted command.
fn is_echo_line(e: &String, bytes: &[u8], nl: usize) -> (r: bool)
    requires
        nl <= bytes@.len(),
    ensures
        r == (e@ == trim(trim_char(lossy_decode(bytes@.take(nl as int)), '\r'))),
{
    let mut first = String::new();
    push_lossy(&mut first, &bytes[0..nl]);
    assert(bytes@.subrange(0, nl as int) =~= bytes@.take(nl as int));
    let t1 = trimmed_char(first.as_str(), '\r');
    let t2 = trimmed(t1.as_str());
    str_eq(e.as_str(), t2.as_str())
}

/// A session before any output: heuristic mode, nothing captured.
pub open spec fn initial_term() -> TermV {
    TermV {
        scanner: ScanV { state: crate::term::osc::ScanState::Ground, osc: seq![] },
        sgr: SgrV {
            color: OutputColor::Default,
            esc: crate::term::sgr::EscState::Text,
            params: seq![],
            has_intermediate: false,
            pending: seq![],
            cr_pending: false,
        },
        mode: Mode::Auto,
        in_command: false,
        at_prompt: false,
        pending_echo: None,
        echo_buf: seq![],
    }
}

impl Default for SessionTerm {
    fn default() -> (r: Self)
        ensures
            r@ == initial_term(),
    {
        SessionTerm::new()
    }
}

impl SessionTerm {
    pub fn new() -> (r: Self)
        ensures
            r@ == initial_term(),
    {
        SessionTerm {
            scanner: OscScanner::new(),
            sgr: SgrConverter::new(),
            mode: Mode::Auto,
            in_command: false,
            at_prompt: false,
            pending_echo: None,
            echo_buf: Vec::new(),
        }
    }

    /// Called when a command is submitted from the input line: the colour is
    /// reset; in the heuristic mode capturing starts at once and the command
    /// is kept to recognise its echo (with OSC 133, `C` starts capturing).
    pub fn on_submit(&mut self, cmd: &str)
        ensures
            final(self)@ == (TermV {
                sgr: sgr_reset(old(self)@.sgr),
                in_command: old(self)@.mode == Mode::Auto,
                pending_echo: if old(self)@.mode == Mode::Auto {
                    Some(trim(cmd@))
                } else {
                    old(self)@.pending_echo
                },
                echo_buf: if old(self)@.mode == Mode::Auto {
                    Seq::<u8>::empty()
                } else {
                    old(self)@.echo_buf
                },
                ..old(self)@
            }),
    {
        self.sgr.reset();
        self.in_command = self.mode == Mode::Auto;
        if self.mode == Mode::Auto {
            self.pending_echo = Some(trimmed(cmd));
            self.echo_buf = Vec::new();
        }
    }

    /// Heuristic mode: drops the first line of output when it is the echo of
    /// the submitted command, holding bytes back until that line is complete
    /// (at most the command's length plus 16 bytes).
    #[verifier::spinoff_prover]
    #[verifier::rlimit(50)]
    fn process_with_echo_strip(&mut self, raw: &[u8]) -> (evs: Vec<SgrEvent>)
        ensures
            final(self)@ == echo_strip(old(self)@, raw@).0,
            sgr_events_view(evs@) == echo_strip(old(self)@, raw@).1,
    {
        let echo_len: usize = match &self.pending_echo {
            None => {
                return self.sgr.convert(raw);
            },
            Some(e) => e.as_str().len(),
        };
        let ghost st = self@;
        let ghost echo = st.pending_echo->0;
        let mut combined: Vec<u8> = Vec::new();
        std::mem::swap(&mut combined, &mut self.echo_buf);
        append_bytes(&mut combined, raw);
        let len = combined.len();
        let nl = find_from(combined.as_slice(), 0, 0x0a);
        assert(combined@.skip(0) =~= combined@);
        if nl < len {
            let discard = match &self.pending_echo {
                Some(e) => is_echo_line(e, combined.as_slice(), nl),
                None => false,
            };
            self.pending_echo = None;
            self.echo_buf = Vec::new();
            if discard {
                if nl + 1 == len {
                    assert(combined@.skip(nl + 1).len() == 0);
                    Vec::new()
                } else {
                    assert(combined@.subrange(nl + 1, len as int) =~= combined@.skip(nl + 1));
                    self.sgr.convert(&combined.as_slice()[nl + 1..len])
                }
            } else {
                self.sgr.convert(combined.as_slice())
            }
        } else if len >= 16 && len - 16 > echo_len {
            self.pending_echo = None;
            self.echo_buf = Vec::new();
            self.sgr.convert(combined.as_slice())
        } else {
            self.echo_buf = combined;
            Vec::new()
        }
    }

    /// Output of a command: captured into the running block.
    fn output_in_command(&mut self, raw: &[u8], actions: &mut Vec<TermAction>)
        requires
            old(self)@.in_command,
        ensures
            final(self)@ == term_event(old(self)@, BlockEventV::Output(raw@)).0,
            actions_view(final(actions)@) == actions_view(old(actions)@) + term_event(
                old(self)@,
                BlockEventV::Output(raw@),
            ).1,
    {
        let ghost a0 = actions_view(actions@);
        if self.mode == Mode::Auto {
            match prompt_split(raw) {
                Some(cut) => {
                    let evs = self.process_with_echo_strip(&raw[0..cut]);
                    assert(raw@.subrange(0, cut as int) =~= raw@.take(cut as int));
                    push_sgr_events(&evs, actions);
                    let ghost a1 = actions_view(actions@);
                    actions.push(TermAction::EndBlock { exit: None });
                    assert(actions_view(actions@) =~= a1.push(TermActionV::EndBlock { exit: None }));
                    assert(actions_view(actions@) =~= a0 + (sgr_actions(sgr_events_view(evs@))
                        + seq![TermActionV::EndBlock { exit: None }]));
                    self.in_command = false;
                    return;
                },
                None => {},
            }
        }
        if self.mode == Mode::Auto && self.pending_echo.is_some() {
            let evs = self.process_with_echo_strip(raw);
            push_sgr_events(&evs, actions);
        } else {
            let evs = self.sgr.convert(raw);
            push_sgr_events(&evs, actions);
        }
    }

    /// Output outside a command: in OSC 133 mode after `D` and before `A`
    /// (such as a background job finishing) it is kept, dimmed, for the last
    /// block, unless it is only whitespace; otherwise it is the prompt and is dropped.
    fn output_outside(&mut self, raw: &[u8], actions: &mut Vec<TermAction>)
        requires
            !old(self)@.in_command,
        ensures
            final(self)@ == term_event(old(self)@, BlockEventV::Output(raw@)).0,
            actions_view(final(actions)@) == actions_view(old(actions)@) + term_event(
                old(self)@,
                BlockEventV::Output(raw@),
            ).1,
    {
        if self.mode == Mode::Osc133 && !self.at_prompt {
            let evs = self.sgr.convert(raw);
            push_detached(&evs, actions);
        } else {
            assert(actions_view(actions@) =~= actions_view(old(actions)@) + Seq::<TermActionV>::empty());
        }
    }

    /// The reaction to one scanner event.
    fn handle_event(&mut self, ev: &BlockEvent, actions: &mut Vec<TermAction>)
        ensures
            final(self)@ == term_event(old(self)@, ev@).0,
            actions_view(final(actions)@) == actions_view(old(actions)@) + term_event(
                old(self)@,
                ev@,
            ).1,
    {
        let ghost a0 = actions_view(actions@);
        match ev {
            BlockEvent::CommandStart => {
                let was = self.in_command;
                self.mode = Mode::Osc133;
                self.in_command = true;
                self.at_prompt = false;
                self.pending_echo = None;
                self.echo_buf = Vec::new();
                self.sgr.reset();
                if was {
                    actions.push(TermAction::ClearOutput);
                }
                assert(actions_view(actions@) =~= a0 + term_event(old(self)@, ev@).1);
            },
            BlockEvent::CommandEnd { exit } => {
                if self.mode == Mode::Osc133 {
                    if self.in_command {
                        actions.push(TermAction::EndBlock { exit: *exit });
                        self.in_command = false;
                        self.at_prompt = false;
                    }
                } else {
                    self.mode = Mode::Osc133;
                    if self.in_command {
                        actions.push(TermAction::ClearOutput);
                        self.in_command = false;
                    }
                }
                assert(actions_view(actions@) =~= a0 + term_event(old(self)@, ev@).1);
            },
            BlockEvent::PromptStart => {
                if self.mode == Mode::Auto {
                    self.mode = Mode::Osc133;
                    if self.in_command {
                        actions.push(TermAction::ClearOutput);
                        self.in_command = false;
                    }
                }
                self.at_prompt = true;
                assert(actions_view(actions@) =~= a0 + term_event(old(self)@, ev@).1);
            },
            BlockEvent::Cwd(path) => {
                actions.push(TermAction::SetCwd(path.clone()));
                assert(actions_view(actions@) =~= a0 + term_event(old(self)@, ev@).1);
            },
            BlockEvent::Output(raw) => {
                if self.in_command {
                    self.output_in_command(raw.as_slice(), actions);
                } else {
                    self.output_outside(raw.as_slice(), actions);
                }
            },
        }
    }

    /// Feeds a chunk of shell output and returns what to apply to the blocks.
    pub fn feed(&mut self, bytes: &[u8]) -> (actions: Vec<TermAction>)
        ensures
            final(self)@ == term_feed(old(self)@, bytes@).0,
            actions_view(actions@) == term_feed(old(self)@, bytes@).1,
    {
        let ghost st0 = self@;
        let evs = self.scanner.process(bytes);
        let ghost st1 = self@;
        let ghost ev_v = events_view(evs@);
        assert(st1 == (TermV { scanner: scan(st0.scanner, bytes@).0, ..st0 }));
        let mut actions: Vec<TermAction> = Vec::new();
        let mut k: usize = 0;
        assert(ev_v.take(0) =~= Seq::<BlockEventV>::empty());
        assert(actions_view(actions@) =~= Seq::<TermActionV>::empty());
        while k < evs.len()
            invariant
                k <= evs@.len(),
                ev_v == events_view(evs@),
                self@ == term_events(st1, ev_v.take(k as int)).0,
                actions_view(actions@) == term_events(st1, ev_v.take(k as int)).1,
            decreases evs@.len() - k,
        {
            assert(ev_v.take(k + 1).drop_last() =~= ev_v.take(k as int));
            assert(ev_v.take(k + 1).last() == evs@[k as int]@);
            self.handle_event(&evs[k], &mut actions);
            k = k + 1;
        }
        assert(ev_v.take(k as int) =~= ev_v);
        actions
    }
}

/// Dimmed output outside a command, unless it is only whitespace.
fn push_detached(evs: &Vec<SgrEvent>, actions: &mut Vec<TermAction>)
    ensures
        actions_view(final(actions)@) == actions_view(old(actions)@) + detached_actions(
            sgr_events_view(evs@),
        ),
{
    let ghost ev_v = sgr_events_view(evs@);
    let mut flat: Vec<OutputSpan> = Vec::new();
    let mut text = String::new();
    let mut k: usize = 0;
    assert(ev_v.take(0) =~= Seq::<SgrEventV>::empty());
    assert(spans_view(flat@) =~= Seq::<SpanV>::empty());
    while k < evs.len()
        invariant
            k <= evs@.len(),
            ev_v == sgr_events_view(evs@),
            spans_view(flat@) == flat_spans(ev_v.take(k as int)),
            text@ == spans_text(spans_view(flat@)),
        decreases evs@.len() - k,
    {
        assert(ev_v.take(k + 1).drop_last() =~= ev_v.take(k as int));
        assert(ev_v.take(k + 1).last() == evs@[k as int]@);
        match &evs[k] {
            SgrEvent::Spans(spans) => {
                let ghost f0 = spans_view(flat@);
                let mut j: usize = 0;
                while j < spans.len()
                    invariant
                        j <= spans@.len(),
                        spans_view(flat@) == f0 + spans_view(spans@).take(j as int),
                        text@ == spans_text(spans_view(flat@)),
                    decreases spans@.len() - j,
                {
                    let ghost fb = spans_view(flat@);
                    flat.push(spans[j].duplicate());
                    text.append(spans[j].text.as_str());
                    assert(spans_view(flat@) =~= fb.push(spans@[j as int]@));
                    assert(spans_view(flat@).drop_last() =~= fb);
                    assert(spans_view(flat@) =~= f0 + spans_view(spans@).take(j + 1));
                    j = j + 1;
                }
                assert(spans_view(spans@).take(j as int) =~= spans_view(spans@));
            },
            _ => {
                assert(spans_view(flat@) =~= flat_spans(ev_v.take(k + 1)));
            },
        }
        k = k + 1;
    }
    assert(ev_v.take(k as int) =~= ev_v);
    let t = trimmed(text.as_str());
    if flat.len() > 0 && !t.as_str().is_empty() {
        let mut dim: Vec<OutputSpan> = Vec::new();
        let mut j: usize = 0;
        while j < flat.len()
            invariant
                j <= flat@.len(),
                dim@.len() == j,
                forall|i: int| 0 <= i < j ==> (#[trigger] dim@[i])@ == (SpanV { color: OutputColor::Dim, text: flat@[i]@.text }),
            decreases flat@.len() - j,
        {
            dim.push(OutputSpan { color: OutputColor::Dim, text: flat[j].text.clone() });
            j = j + 1;
        }
        assert(spans_view(dim@) =~= dimmed(spans_view(flat@))) by {
            assert forall|i: int| 0 <= i < dim@.len() implies spans_view(dim@)[i] == dimmed(spans_view(flat@))[i] by {
                assert(dim@[i]@ == (SpanV { color: OutputColor::Dim, text: flat@[i]@.text }));
            }
        }
        let ghost a0 = actions_view(actions@);
        actions.push(TermAction::AppendDetached(dim));
        assert(actions_view(actions@) =~= a0 + detached_actions(ev_v));
    } else {
        assert(actions_view(actions@) =~= actions_view(old(actions)@) + detached_actions(ev_v));
    }
}

/// Once the shell has sent OSC 133, blocks stay delimited by it: no event
/// brings the heuristic mode back.
pub proof fn law_osc133_stays_event(st: TermV, ev: BlockEventV)
    requires
        st.mode == Mode::Osc133,
    ensures
        term_event(st, ev).0.mode == Mode::Osc133,
{
    match ev {
        BlockEventV::Output(raw) => {
            if st.in_command && st.mode == Mode::Auto {
                assert(false);
            }
        },
        _ => {},
    }
}

/// Once the shell has sent OSC 133, blocks stay delimited by it: after any
/// chunk of output, the session is still in that mode.
pub proof fn law_osc133_stays(st: TermV, bytes: Seq<u8>)
    requires
        st.mode == Mode::Osc133,
    ensures
        term_feed(st, bytes).0.mode == Mode::Osc133,
{
    let sc = scan(st.scanner, bytes);
    lemma_events_keep_osc133(TermV { scanner: sc.0, ..st }, group(sc.1));
}

proof fn lemma_events_keep_osc133(st: TermV, evs: Seq<BlockEventV>)
    requires
        st.mode == Mode::Osc133,
    ensures
        term_events(st, evs).0.mode == Mode::Osc133,
    decreases evs.len(),
{
    if evs.len() > 0 {
        lemma_events_keep_osc133(st, evs.drop_last());
        law_osc133_stays_event(term_events(st, evs.drop_last()).0, evs.last());
    }
}

/// Any OSC 133 sequence switches the session to block delimiting by OSC 133.
pub proof fn law_osc133_event_switches(st: TermV, ev: BlockEventV)
    requires
        ev is CommandStart || ev is CommandEnd || ev is PromptStart,
    ensures
        term_event(st, ev).0.mode == Mode::Osc133,
{
}

/// An action that only carries output into the running block.
pub open spec fn is_output_action(a: TermActionV) -> bool {
    a is Append || a is OverwriteLine || a is AltScreen
}

proof fn lemma_sgr_actions_output(evs: Seq<SgrEventV>)
    ensures
        forall|i: int| 0 <= i < sgr_actions(evs).len() ==> is_output_action(#[trigger] sgr_actions(evs)[i]),
    decreases evs.len(),
{
    if evs.len() > 0 {
        lemma_sgr_actions_output(evs.drop_last());
        let a = sgr_actions(evs.drop_last());
        let b = match evs.last() {
            SgrEventV::Spans(s) => if s.len() > 0 {
                seq![TermActionV::Append(s)]
            } else {
                seq![]
            },
            SgrEventV::CarriageReturn => seq![TermActionV::OverwriteLine],
            SgrEventV::AltScreen(x) => seq![TermActionV::AltScreen(x)],
        };
        assert forall|i: int| 0 <= i < (a + b).len() implies is_output_action(#[trigger] (a + b)[i]) by {
            if i >= a.len() {
                assert((a + b)[i] == b[i - a.len()]);
            } else {
                assert((a + b)[i] == a[i]);
            }
        }
    }
}

/// With OSC 133, output between `C` and `D` only ever adds to the running
/// block: it neither ends nor clears it, whatever it looks like.
pub proof fn law_osc133_output_stays_in_block(st: TermV, raw: Seq<u8>)
    requires
        st.mode == Mode::Osc133,
        st.in_command,
    ensures
        forall|i: int| 0 <= i < term_event(st, BlockEventV::Output(raw)).1.len()
            ==> is_output_action(#[trigger] term_event(st, BlockEventV::Output(raw)).1[i]),
{
    let c = sgr_convert(st.sgr, raw);
    lemma_sgr_actions_output(sgr_group(c.1));
}

/// In the heuristic mode, the first OSC 133 `D` or `A` (sent for the prompt
/// that was already on screen) never ends the block of the command the
/// user just submitted: it only switches to OSC 133 and drops what was
/// captured, so that `C` starts the block afresh.
pub proof fn law_first_osc133_never_ends_block(st: TermV, ev: BlockEventV)
    requires
        st.mode == Mode::Auto,
        ev is CommandEnd || ev is PromptStart,
    ensures
        forall|i: int| 0 <= i < term_event(st, ev).1.len() ==> !(#[trigger] term_event(st, ev).1[i] is EndBlock),
{
}

/// A session between a command's end and the next prompt in OSC 133 mode,
/// with its scanner and its converter holding nothing.
pub open spec fn between_commands(st: TermV) -> bool {
    &&& st.mode == Mode::Osc133
    &&& !st.in_command
    &&& !st.at_prompt
    &&& st.scanner.state == ScanState::Ground
    &&& sgr_clean(st.sgr)
}

/// Text outside a command: one dimmed detached span, or nothing when the
/// text is blank.
pub open spec fn detached_text(t: Seq<char>) -> Seq<TermActionV> {
    if trim(t).len() > 0 {
        seq![TermActionV::AppendDetached(seq![SpanV { color: OutputColor::Dim, text: t }])]
    } else {
        seq![]
    }
}

proof fn lemma_group_plain(bytes: Seq<u8>)
    ensures
        group_acc(bytes.map_values(|b: u8| ScanItem::Byte(b))) == (Seq::<BlockEventV>::empty(), bytes),
    decreases bytes.len(),
{
    let items = bytes.map_values(|b: u8| ScanItem::Byte(b));
    if bytes.len() > 0 {
        let d = bytes.drop_last();
        lemma_group_plain(d);
        assert(items =~= d.map_values(|b: u8| ScanItem::Byte(b)).push(ScanItem::Byte(bytes.last())));
        lemma_group_push(d.map_values(|b: u8| ScanItem::Byte(b)), ScanItem::Byte(bytes.last()));
        assert(d.push(bytes.last()) =~= bytes);
    } else {
        assert(items =~= Seq::<ScanItem>::empty());
    }
}

/// After a command ended under OSC 133, and before the next prompt, any
/// text without escapes, carriage returns or bells becomes one dimmed
/// detached append of its characters, or nothing when it is blank.
pub proof fn law_detached_output(st: TermV, s: Seq<u8>)
    requires
        between_commands(st),
        plain_bytes(s),
    ensures
        term_feed(st, s).1 == detached_text(partial_decode(s).0),
{
    assert forall|i: int| 0 <= i < s.len() implies s[i] != 0x1b by {
        assert(s[i] != 0x1b && s[i] != 0x0d && s[i] != 0x07);
    }
    law_scan_plain(st.scanner, s);
    lemma_group_plain(s);
    let sc = scan(st.scanner, s);
    let st1 = TermV { scanner: sc.0, ..st };
    let evs = group(sc.1);
    assert(evs =~= output_event(s));
    let t = partial_decode(s).0;
    if s.len() == 0 {
        assert(evs =~= Seq::<BlockEventV>::empty());
        assert(t =~= Seq::<char>::empty());
        assert(trim(t) =~= Seq::<char>::empty());
    } else {
        assert(evs.drop_last() =~= Seq::<BlockEventV>::empty());
        assert(term_events(st1, evs.drop_last()).1 == Seq::<TermActionV>::empty());
        law_sgr_plain(st.sgr, s);
        let ev = plain_events(st.sgr.color, t);
        let r = term_event(st1, BlockEventV::Output(s));
        assert(r.1 == detached_actions(ev));
        if t.len() == 0 {
            assert(flat_spans(ev) =~= Seq::<SpanV>::empty());
            assert(trim(t) =~= Seq::<char>::empty());
        } else {
            let sp = seq![SpanV { color: st.sgr.color, text: t }];
            assert(ev.drop_last() =~= Seq::<SgrEventV>::empty());
            assert(flat_spans(ev.drop_last()) == Seq::<SpanV>::empty());
            assert(flat_spans(ev) =~= sp);
            assert(sp.drop_last() =~= Seq::<SpanV>::empty());
            assert(spans_text(sp.drop_last()) == Seq::<char>::empty());
            assert(spans_text(sp) =~= t);
            assert(dimmed(sp) =~= seq![SpanV { color: OutputColor::Dim, text: t }]);
        }
        assert(Seq::<TermActionV>::empty() + r.1 =~= r.1);
    }
}

/// Text between a prompt start (`A`) and a command start (`C`) is the
/// prompt: it is dropped, and the three events together report nothing
/// (outside a command).
pub proof fn law_prompt_text_dropped(st: TermV, raw: Seq<u8>)
    requires
        !st.in_command,
    ensures
        term_events(st, seq![BlockEventV::PromptStart, BlockEventV::Output(raw), BlockEventV::CommandStart]).1
            == Seq::<TermActionV>::empty(),
{
    let evs = seq![BlockEventV::PromptStart, BlockEventV::Output(raw), BlockEventV::CommandStart];
    assert(evs.drop_last() =~= seq![BlockEventV::PromptStart, BlockEventV::Output(raw)]);
    assert(evs.drop_last().drop_last() =~= seq![BlockEventV::PromptStart]);
    assert(evs.drop_last().drop_last().drop_last() =~= Seq::<BlockEventV>::empty());
    let s0 = term_events(st, Seq::<BlockEventV>::empty());
    let s1 = term_events(st, seq![BlockEventV::PromptStart]);
    let s2 = term_events(st, seq![BlockEventV::PromptStart, BlockEventV::Output(raw)]);
    assert(s1.0.at_prompt && !s1.0.in_command);
    assert(s1.1 =~= Seq::<TermActionV>::empty());
    assert(s2.1 =~= Seq::<TermActionV>::empty());
    assert(!s2.0.in_command);
}

} // verus!
