//! Applying terminal actions to the blocks of a session.
use vstd::prelude::*;
use crate::state::{OutputColor, OutputSpan, SpanV, spans_view};
use crate::state::model::{AppState, AppV, Block, BlockV, SessionStatus, SessionV, blocks_view};
use crate::state::ops::{find_session, find_session_index, first_index, session_is};
use crate::term::session::{TermAction, TermActionV};
use crate::text::{
    chars_of, lemma_rfind, opt_idx, rfind_in, rfind_spec, starts_with, starts_with_chars, str_eq,
    string_of, strip_pred,
};
use crate::state::ops::lemma_filter_push;

verus! {

/// The characters that end a line.
pub open spec fn newline() -> spec_fn(char) -> bool {
    strip_pred(false, '\n')
}

/// Whether the span holds a line end.
pub open spec fn has_newline(s: SpanV) -> bool {
    rfind_spec(s.text, newline()) is Some
}

pub open spec fn nonempty_span() -> spec_fn(SpanV) -> bool {
    |s: SpanV| s.text.len() > 0
}

/// The output up to and including its last line end (see
/// `truncate_after_last_newline`): the span holding it is cut after it,
/// later spans go, and empty spans are dropped; without a line end nothing
/// is left.
pub open spec fn truncated(out: Seq<SpanV>) -> Seq<SpanV> {
    match rfind_spec(out, |s: SpanV| has_newline(s)) {
        None => Seq::empty(),
        Some(i) => {
            let pos = rfind_spec(out[i].text, newline()).unwrap();
            let cut = SpanV { text: out[i].text.take(pos + 1), ..out[i] };
            out.take(i).push(cut).filter(nonempty_span())
        },
    }
}

/// For the overwrite of a line by `\r`: drops the last line of a block's
/// output (what follows its last line end). Spans left empty are removed;
/// without any line end the output is cleared.
pub fn truncate_after_last_newline(output: &mut Vec<OutputSpan>)
    ensures
        spans_view(final(output)@) == truncated(spans_view(old(output)@)),
{
    let ghost out = spans_view(output@);
    let ghost hp = |s: SpanV| has_newline(s);
    let mut i: usize = output.len();
    assert(out.take(i as int) =~= out);
    while i > 0
        invariant
            i <= output@.len(),
            out == spans_view(output@),
            out == spans_view(old(output)@),
            hp == (|s: SpanV| has_newline(s)),
            rfind_spec(out, hp) == rfind_spec(out.take(i as int), hp),
        decreases i,
    {
        assert(out.take(i as int).drop_last() =~= out.take(i - 1));
        let v = chars_of(output[i - 1].text.as_str());
        let found = rfind_in(v.as_slice(), v.len(), false, '\n');
        assert(v@.take(v@.len() as int) =~= v@);
        if let Some(pos) = found {
            let k = i - 1;
            proof {
                lemma_rfind(v@, newline());
                assert(out.take(i as int).last() == out[k as int]);
                assert(has_newline(out[k as int]));
                assert(rfind_spec(out, hp) == Some(k as int));
            }
            let cut = OutputSpan { color: output[k].color, text: string_of(&v.as_slice()[0..pos + 1]) };
            assert(cut@.text =~= out[k as int].text.take(pos + 1));
            let mut kept: Vec<OutputSpan> = Vec::new();
            let ghost pred = nonempty_span();
            let mut j: usize = 0;
            while j < k
                invariant
                    j <= k < output@.len(),
                    out == spans_view(output@),
                    out == spans_view(old(output)@),
                    pred == nonempty_span(),
                    spans_view(kept@) == out.take(j as int).filter(pred),
                decreases k - j,
            {
                proof {
                    lemma_filter_push(out.take(j as int), pred, out[j as int]);
                    assert(out.take(j + 1) =~= out.take(j as int).push(out[j as int]));
                }
                if !output[j].text.as_str().is_empty() {
                    kept.push(output[j].duplicate());
                    assert(spans_view(kept@) =~= out.take(j as int).filter(pred).push(out[j as int]));
                }
                j = j + 1;
            }
            proof {
                lemma_filter_push(out.take(k as int), pred, cut@);
            }
            kept.push(cut);
            assert(spans_view(kept@) =~= out.take(k as int).push(cut@).filter(pred));
            assert(pos as int == rfind_spec(out[k as int].text, newline()).unwrap());
            assert(cut@ == (SpanV { text: out[k as int].text.take(pos + 1), ..out[k as int] }));
            assert(truncated(out) == out.take(k as int).push(cut@).filter(pred));
            *output = kept;
            assert(spans_view(output@) == truncated(out));
            return;
        }
        i = i - 1;
    }
    *output = Vec::new();
    assert(spans_view(output@) =~= Seq::<SpanV>::empty());
}

/// `path` as shown: under the home directory it starts with `~`.
pub open spec fn collapse_home_spec(path: Seq<char>, home: Option<Seq<char>>) -> Seq<char> {
    match home {
        Some(h) => if path == h {
            "~"@
        } else if starts_with(path, h.push('/')) {
            "~/"@ + path.skip(h.len() as int + 1)
        } else {
            path
        },
        None => path,
    }
}

/// `path` as shown: under the home directory `home` it starts with `~`.
pub fn collapse_home(path: &str, home: &Option<String>) -> (r: String)
    ensures
        r@ == collapse_home_spec(path@, crate::text::opt_str(*home)),
{
    match home {
        None => path.to_owned(),
        Some(h) => {
            if str_eq(path, h.as_str()) {
                return String::from_str("~");
            }
            let mut hs = chars_of(h.as_str());
            hs.push('/');
            let rv = chars_of(path);
            if starts_with_chars(rv.as_slice(), hs.as_slice()) {
                let mut r = String::from_str("~/");
                let rest = string_of(&rv.as_slice()[hs.len()..rv.len()]);
                r.append(rest.as_str());
                assert(rest@ =~= path@.skip(h@.len() as int + 1));
                r
            } else {
                path.to_owned()
            }
        },
    }
}

/// The session with the id (the first one), changed by `f`.
pub open spec fn map_session(st: AppV, id: Seq<char>, f: spec_fn(SessionV) -> SessionV) -> AppV {
    match find_session(st.sessions, id) {
        Some(i) => AppV { sessions: st.sessions.update(i, f(st.sessions[i])), ..st },
        None => st,
    }
}

/// The running block of a session: the last one that runs.
pub open spec fn running_block(s: SessionV) -> Option<int> {
    rfind_spec(s.blocks, |b: BlockV| b.running)
}

/// The running block of the session with the id, changed by `f`.
pub open spec fn map_running(st: AppV, id: Seq<char>, f: spec_fn(BlockV) -> BlockV) -> AppV {
    map_session(
        st,
        id,
        |s: SessionV|
            match running_block(s) {
                Some(j) => SessionV { blocks: s.blocks.update(j, f(s.blocks[j])), ..s },
                None => s,
            },
    )
}

/// Whether the session with the id shows the alternate screen.
pub open spec fn alt_of(st: AppV, id: Seq<char>) -> bool {
    match find_session(st.sessions, id) {
        Some(i) => st.sessions[i].alt_screen,
        None => false,
    }
}

/// Output outside a command appended to the last block: on a line of its
/// own (a dimmed line end is added when the output does not end one).
pub open spec fn detached(s: SessionV, spans: Seq<SpanV>) -> SessionV {
    if s.blocks.len() == 0 {
        s
    } else {
        let j = s.blocks.len() - 1;
        let b = s.blocks[j];
        let needs = b.output.len() > 0 && !(b.output.last().text.len() > 0 && b.output.last().text.last() == '\n');
        let out = if needs {
            b.output.push(SpanV { color: OutputColor::Dim, text: seq!['\n'] })
        } else {
            b.output
        };
        SessionV { blocks: s.blocks.update(j, BlockV { output: out + spans, ..b }), ..s }
    }
}

/// `apply_term_action` on the session with the id.
///
/// While the session shows the alternate screen, output (`Append`,
/// `OverwriteLine`, `AppendDetached`) is dropped. `EndBlock` leaves the
/// alternate screen, closes the running block with the exit code, and sets
/// the status: an error for a non-zero code, else live. `SetCwd` records the
/// real directory and shows it relative to home.
pub open spec fn apply_spec(st: AppV, id: Seq<char>, a: TermActionV) -> AppV {
    let alt = alt_of(st, id);
    match a {
        TermActionV::Append(spans) => if alt {
            st
        } else {
            map_running(st, id, |b: BlockV| BlockV { output: b.output + spans, ..b })
        },
        TermActionV::ClearOutput => map_running(st, id, |b: BlockV| BlockV { output: Seq::empty(), ..b }),
        TermActionV::EndBlock { exit } => {
            let s1 = map_session(st, id, |s: SessionV| SessionV { alt_screen: false, ..s });
            let s2 = map_running(s1, id, |b: BlockV| BlockV { running: false, exit_code: exit, ..b });
            let status = match exit {
                Some(c) if c != 0 => SessionStatus::Error,
                _ => SessionStatus::Live,
            };
            map_session(s2, id, |s: SessionV| SessionV { status, ..s })
        },
        TermActionV::SetCwd(path) => map_session(
            st,
            id,
            |s: SessionV| SessionV { cwd: Some(path), pwd: collapse_home_spec(path, st.home), ..s },
        ),
        TermActionV::OverwriteLine => if alt {
            st
        } else {
            map_running(st, id, |b: BlockV| BlockV { output: truncated(b.output), ..b })
        },
        TermActionV::AppendDetached(spans) => if alt {
            st
        } else {
            map_session(st, id, |s: SessionV| detached(s, spans))
        },
        TermActionV::AltScreen(on) => map_session(st, id, |s: SessionV| SessionV { alt_screen: on, ..s }),
    }
}

/// The first session with an id depends on the ids alone.
pub proof fn lemma_find_same_ids(a: Seq<SessionV>, b: Seq<SessionV>, id: Seq<char>)
    requires
        a.len() == b.len(),
        forall|j: int| 0 <= j < a.len() ==> (#[trigger] a[j]).id == b[j].id,
    ensures
        find_session(a, id) == find_session(b, id),
{
    lemma_first_same(a, b, id, 0);
}

proof fn lemma_first_same(a: Seq<SessionV>, b: Seq<SessionV>, id: Seq<char>, k: int)
    requires
        a.len() == b.len(),
        forall|j: int| 0 <= j < a.len() ==> (#[trigger] a[j]).id == b[j].id,
    ensures
        first_index(a, session_is(id), k) == first_index(b, session_is(id), k),
    decreases a.len() - k,
{
    if 0 <= k < a.len() {
        assert(a[k].id == b[k].id);
        lemma_first_same(a, b, id, k + 1);
    }
}

fn running_index(blocks: &Vec<Block>) -> (r: Option<usize>)
    ensures
        opt_idx(r) == rfind_spec(blocks_view(blocks@), |b: BlockV| b.running),
        r matches Some(j) ==> j < blocks@.len(),
{
    let ghost bs = blocks_view(blocks@);
    let ghost p = |b: BlockV| b.running;
    let mut k: usize = blocks.len();
    assert(bs.take(k as int) =~= bs);
    while k > 0
        invariant
            k <= blocks@.len(),
            bs == blocks_view(blocks@),
            p == (|b: BlockV| b.running),
            rfind_spec(bs, p) == rfind_spec(bs.take(k as int), p),
        decreases k,
    {
        assert(bs.take(k as int).drop_last() =~= bs.take(k - 1));
        if blocks[k - 1].running {
            return Some(k - 1);
        }
        k = k - 1;
    }
    None
}

impl AppState {
    /// Applies a terminal action to the session with the id (see
    /// `apply_spec`).
    pub fn apply_term_action(&mut self, id: &str, action: TermAction)
        ensures
            final(self)@ == apply_spec(old(self)@, id@, action@),
    {
        let ghost st = self@;
        let ghost a = action@;
        let i = match find_session_index(&self.sessions, id) {
            Some(i) => i,
            None => {
                proof {
                    match action@ {
                        TermActionV::EndBlock { exit } => {
                            let s1 = map_session(st, id@, |s: SessionV| SessionV { alt_screen: false, ..s });
                            assert(s1 == st);
                        },
                        _ => {},
                    }
                }
                return;
            },
        };
        let alt = self.sessions[i].alt_screen;
        let ghost sv = st.sessions[i as int];
        assert(st.sessions.update(i as int, sv) =~= st.sessions);
        match action {
            TermAction::Append(spans) => {
                if alt {
                    return;
                }
                if let Some(j) = running_index(&self.sessions[i].blocks) {
                    let mut more = spans;
                    self.sessions[i].blocks[j].output.append(&mut more);
                    assert(self@.sessions[i as int].blocks[j as int].output =~= sv.blocks[j as int].output + a->Append_0);
                    assert(self@.sessions[i as int].blocks =~= sv.blocks.update(
                        j as int,
                        BlockV { output: sv.blocks[j as int].output + a->Append_0, ..sv.blocks[j as int] },
                    ));
                    assert(self@.sessions =~= apply_spec(st, id@, a).sessions);
                }
            },
            TermAction::ClearOutput => {
                if let Some(j) = running_index(&self.sessions[i].blocks) {
                    self.sessions[i].blocks[j].output = Vec::new();
                    assert(self@.sessions[i as int].blocks[j as int].output =~= Seq::<SpanV>::empty());
                    assert(self@.sessions[i as int].blocks =~= sv.blocks.update(
                        j as int,
                        BlockV { output: Seq::empty(), ..sv.blocks[j as int] },
                    ));
                    assert(self@.sessions =~= apply_spec(st, id@, a).sessions);
                }
            },
            TermAction::EndBlock { exit } => {
                self.sessions[i].alt_screen = false;
                if let Some(j) = running_index(&self.sessions[i].blocks) {
                    self.sessions[i].blocks[j].running = false;
                    self.sessions[i].blocks[j].exit_code = exit;
                }
                let status = match exit {
                    Some(c) => if c != 0 {
                        SessionStatus::Error
                    } else {
                        SessionStatus::Live
                    },
                    None => SessionStatus::Live,
                };
                self.sessions[i].status = status;
                proof {
                    let s1 = map_session(st, id@, |s: SessionV| SessionV { alt_screen: false, ..s });
                    lemma_find_same_ids(st.sessions, s1.sessions, id@);
                    let s2 = map_running(s1, id@, |b: BlockV| BlockV { running: false, exit_code: exit, ..b });
                    lemma_find_same_ids(s1.sessions, s2.sessions, id@);
                    assert(self@.sessions[i as int].blocks =~= s2.sessions[i as int].blocks);
                    assert(self@.sessions =~= apply_spec(st, id@, a).sessions);
                }
            },
            TermAction::SetCwd(path) => {
                let display = collapse_home(path.as_str(), &self.home);
                self.sessions[i].cwd = Some(path);
                self.sessions[i].pwd = display;
                assert(self@.sessions =~= apply_spec(st, id@, a).sessions);
            },
            TermAction::OverwriteLine => {
                if alt {
                    return;
                }
                if let Some(j) = running_index(&self.sessions[i].blocks) {
                    truncate_after_last_newline(&mut self.sessions[i].blocks[j].output);
                    assert(self@.sessions[i as int].blocks =~= sv.blocks.update(
                        j as int,
                        BlockV { output: truncated(sv.blocks[j as int].output), ..sv.blocks[j as int] },
                    ));
                    assert(self@.sessions =~= apply_spec(st, id@, a).sessions);
                }
            },
            TermAction::AppendDetached(spans) => {
                if alt {
                    return;
                }
                let n = self.sessions[i].blocks.len();
                if n == 0 {
                    assert(st.sessions.update(i as int, detached(sv, a->AppendDetached_0)) =~= st.sessions);
                    return;
                }
                let m = self.sessions[i].blocks[n - 1].output.len();
                let needs = if m == 0 {
                    false
                } else {
                    let v = chars_of(self.sessions[i].blocks[n - 1].output[m - 1].text.as_str());
                    !(v.len() > 0 && v[v.len() - 1] == '\n')
                };
                let ghost b = sv.blocks[n - 1];
                if needs {
                    proof {
                        reveal_strlit("\n");
                    }
                    let nl = OutputSpan { color: OutputColor::Dim, text: String::from_str("\n") };
                    assert(nl@.text =~= seq!['\n']);
                    self.sessions[i].blocks[n - 1].output.push(nl);
                    assert(spans_view(self.sessions[i as int].blocks[n - 1].output@) =~= b.output.push(
                        SpanV { color: OutputColor::Dim, text: seq!['\n'] },
                    ));
                }
                let ghost mid = spans_view(self.sessions[i as int].blocks[n - 1].output@);
                let mut more = spans;
                self.sessions[i].blocks[n - 1].output.append(&mut more);
                assert(spans_view(self.sessions[i as int].blocks[n - 1].output@) =~= mid + a->AppendDetached_0);
                assert(self@.sessions[i as int].blocks[n - 1].output =~= (if needs {
                    b.output.push(SpanV { color: OutputColor::Dim, text: seq!['\n'] })
                } else {
                    b.output
                }) + a->AppendDetached_0);
                assert(self@.sessions[i as int].blocks =~= detached(sv, a->AppendDetached_0).blocks);
                assert(self@.sessions =~= apply_spec(st, id@, a).sessions);
            },
            TermAction::AltScreen(on) => {
                self.sessions[i].alt_screen = on;
                assert(self@.sessions =~= apply_spec(st, id@, a).sessions);
            },
        }
    }
}

impl AppState {
    /// The command text and start time of the running block of the session
    /// with the id (the one an `EndBlock` is about to close).
    pub fn running_command(&self, id: &str) -> (r: Option<(String, u64)>)
        ensures
            match find_session(self@.sessions, id@) {
                Some(i) => match running_block(self@.sessions[i]) {
                    Some(j) => r matches Some((cmd, t)) && cmd@ == self@.sessions[i].blocks[j].cmd
                        && t == self@.sessions[i].blocks[j].started_at_unix,
                    None => r is None,
                },
                None => r is None,
            },
    {
        let i = match find_session_index(&self.sessions, id) {
            Some(i) => i,
            None => return None,
        };
        match running_index(&self.sessions[i].blocks) {
            Some(j) => {
                let b = &self.sessions[i].blocks[j];
                Some((b.cmd.clone(), b.started_at_unix))
            },
            None => None,
        }
    }
}

/// While a session shows the alternate screen (vim, less), its output is
/// not recorded: appended text, line overwrites and detached output leave
/// the state as it was.
pub proof fn law_alt_screen_drops_output(st: AppV, id: Seq<char>, a: TermActionV)
    requires
        alt_of(st, id),
        a is Append || a is OverwriteLine || a is AppendDetached,
    ensures
        apply_spec(st, id, a) == st,
{
}

/// The end of a block always leaves the alternate screen (in case its
/// leave sequence was lost) and closes the running block.
pub proof fn law_end_block_leaves_alt_screen(st: AppV, id: Seq<char>, exit: Option<i32>)
    requires
        find_session(st.sessions, id) is Some,
    ensures
        ({
            let r = apply_spec(st, id, TermActionV::EndBlock { exit });
            let i = find_session(st.sessions, id).unwrap();
            &&& !alt_of(r, id)
            &&& running_block(st.sessions[i]) is Some ==> r.sessions[i].blocks[running_block(st.sessions[i]).unwrap()].exit_code == exit
        }),
{
    let i = find_session(st.sessions, id).unwrap();
    crate::state::ops::lemma_first_index(st.sessions, session_is(id), 0);
    let s1 = map_session(st, id, |s: SessionV| SessionV { alt_screen: false, ..s });
    lemma_find_same_ids(st.sessions, s1.sessions, id);
    let s2 = map_running(s1, id, |b: BlockV| BlockV { running: false, exit_code: exit, ..b });
    lemma_find_same_ids(s1.sessions, s2.sessions, id);
    let status = match exit {
        Some(c) if c != 0 => SessionStatus::Error,
        _ => SessionStatus::Live,
    };
    let r = map_session(s2, id, |s: SessionV| SessionV { status, ..s });
    lemma_find_same_ids(s2.sessions, r.sessions, id);
    crate::text::lemma_rfind(st.sessions[i].blocks, |b: BlockV| b.running);
}

} // verus!
